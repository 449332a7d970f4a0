//! The comparisons of integers.

use vstd::prelude::*;

use crate::bits::{lemma_i32_views, lemma_i64_views, lemma_u64_views};
use crate::compare::{const_operand, fold_relation, Relation};
use crate::insn::{AluOp, Cond, Insn, Operand, Width};
use crate::laws::arith::{lemma_owns_code, lemma_push_folded};
use crate::laws::{lemma_push_result, none, one, two};
use crate::location::ValueLocation;
use crate::machine::{compared, Flags, Machine};
use crate::microwasm::Value;
use crate::ownership::{
    lemma_owns_forget, lemma_owns_free, lemma_owns_pop, lemma_owns_reorder, lemma_uses_push,
    taken_is_unused,
};
use crate::registers::{rq, GPRType, RegId, GPR};
use crate::simulation::{lemma_into_reg, lemma_ran_nothing, lemma_ran_push, ran};
use crate::state::State;

verus! {

impl Relation {
    /// Whether the lowest bits of two values stand in this relation.
    pub open spec fn holds(self, w: Width, a: u64, b: u64) -> bool {
        match w {
            Width::Q => self.holds_i64(a as i64, b as i64),
            _ => self.holds_i32(a as i32, b as i32),
        }
    }
}

pub open spec fn as_number(b: bool) -> u64 {
    if b {
        1
    } else {
        0
    }
}

/// Comparing the operands in reverse order by the reverse relation gives the same.
pub proof fn reversed_relation(rel: Relation, w: Width, a: u64, b: u64)
    ensures
        rel.reverse().holds(w, b, a) == rel.holds(w, a, b),
        rel.reverse().reverse() == rel,
{
}

/// The condition that belongs to a relation holds after a comparison exactly if the operands
/// stand in that relation.
pub proof fn relation_by_flags(rel: Relation, w: Width, a: u64, b: u64)
    requires
        w is D || w is Q,
    ensures
        rel.cond().holds(compared(w, a, b)) == rel.holds(w, a, b),
{
    lemma_u64_views(a);
    lemma_u64_views(b);
}

/// Whether an operand is a constant, a register other than `r`, or a slot of the stack.
pub open spec fn apart(op: Operand, r: RegId) -> bool {
    match op {
        Operand::Gpr(gpr) => gpr.valid() && gpr != GPR::Rq(r),
        Operand::Mem(mem) => mem.base == rq::RSP && mem.index is None,
        Operand::Imm(_) => true,
    }
}

pub proof fn lemma_set_byte(v: u64)
    by (bit_vector)
    ensures
        (0u64 & !0xffu64) | 1u64 == 1u64,
        (0u64 & !0xffu64) | 0u64 == 0u64,
        (v ^ v) == 0u64,
        ((v as u32) ^ (v as u32)) == 0u32,
{
}

pub proof fn lemma_read_apart(
    m: Machine,
    w: Width,
    op: Operand,
    r: RegId,
    v: u64,
    flags: Option<Flags>,
)
    requires
        m.wf(),
        r < 16,
        apart(op, r),
    ensures
        m.with_gpr(GPR::Rq(r), v).with_flags(flags).read(w, op) == m.read(w, op),
{
}

/// The register that gets the result of a comparison.
proof fn lemma_set_condition(
    m: Machine,
    w: Width,
    result: RegId,
    left: Operand,
    right: Operand,
    cond: Cond,
)
    requires
        m.wf(),
        m.next is Next,
        result < 16,
        result != rq::RSP,
        apart(left, result),
        apart(right, result),
    ensures
        ({
            let n = m.step(
                Insn::Alu { op: AluOp::Xor, w: Width::D, dst: result, src: Operand::rq(result) },
            ).step(Insn::Cmp { w, left, right }).step(Insn::Setcc { cond, dst: result });
            let holds = cond.holds(compared(w, m.read(w, left), m.read(w, right)));
            n == (Machine {
                rq: m.rq.update(result as int, as_number(holds)),
                flags: n.flags,
                ..m
            })
        }),
{
    lemma_set_byte(m.rq[result as int]);
    let m1 = m.step(
        Insn::Alu { op: AluOp::Xor, w: Width::D, dst: result, src: Operand::rq(result) },
    );
    assert(m1 == (Machine { rq: m.rq.update(result as int, 0), flags: m1.flags, ..m }));
    lemma_read_apart(m, w, left, result, 0, m1.flags);
    lemma_read_apart(m, w, right, result, 0, m1.flags);
    let m2 = m1.step(Insn::Cmp { w, left, right });
    let flags = compared(w, m.read(w, left), m.read(w, right));
    assert(m2 == m1.with_flags(Some(flags)));
    let m3 = m2.step(Insn::Setcc { cond, dst: result });
    let holds = cond.holds(flags);
    assert(m3.rq =~= m.rq.update(result as int, as_number(holds)));
}

pub proof fn lemma_compare(
    s: State,
    m: Machine,
    from: Seq<Insn>,
    w: Width,
    result: RegId,
    left: Operand,
    right: Operand,
    rel: Relation,
)
    requires
        s.reached(m, from),
        w is D || w is Q,
        result < 16,
        result != rq::RSP,
        apart(left, result),
        apart(right, result),
    ensures
        ({
            let t = s.compare(w, result, left, right, rel.cond());
            let before = ran(m, from, s.code);
            let n = ran(m, from, t.code);
            let holds = rel.holds(w, before.read(w, left), before.read(w, right));
            &&& t.reached(m, from)
            &&& t == (State { code: t.code, ..s })
            &&& n == (Machine {
                rq: before.rq.update(result as int, as_number(holds)),
                flags: n.flags,
                ..before
            })
        }),
{
    let before = ran(m, from, s.code);
    relation_by_flags(rel, w, before.read(w, left), before.read(w, right));
    lemma_set_condition(before, w, result, left, right, rel.cond());
    let i1 = Insn::Alu { op: AluOp::Xor, w: Width::D, dst: result, src: Operand::rq(result) };
    let i2 = Insn::Cmp { w, left, right };
    let i3 = Insn::Setcc { cond: rel.cond(), dst: result };
    lemma_ran_push(m, from, s.code, i1);
    lemma_ran_push(m, from, s.code.push(i1), i2);
    lemma_ran_push(m, from, s.code.push(i1).push(i2), i3);
    assert(before.step(i1).next is Next);
    assert(before.step(i1).step(i2).next is Next);
}

/// The operand that stands for the value at `loc` in a comparison.
pub open spec fn operand_of(s: State, w: Width, loc: ValueLocation) -> Operand {
    match loc {
        ValueLocation::Reg(gpr) => Operand::Gpr(gpr),
        ValueLocation::Stack(o) => s.slot(o),
        ValueLocation::Immediate(_) => Operand::Imm(const_operand(w, loc)->0),
    }
}

/// The operand holds what the value is, as far as the relation looks.
proof fn lemma_operand(s: State, m: Machine, w: Width, loc: ValueLocation)
    requires
        w is D || w is Q,
        loc is Immediate ==> const_operand(w, loc) is Some,
    ensures
        ({
            let r = m.read(w, operand_of(s, w, loc));
            let v = s.value_of(m, loc);
            &&& r as i32 == v as i32
            &&& w is Q ==> r == v
        }),
{
    lemma_u64_views(s.value_of(m, loc));
    if loc is Immediate && w is D {
        lemma_i32_views(loc.imm_i32()->0);
        lemma_u64_views((loc.imm_i32()->0 as i64) as u64);
    }
}

/// A comparison with a constant on the left.
proof fn lemma_relation_const(s: State, m: Machine, rel: Relation, w: Width)
    requires
        s.at(m),
        s.relation(rel, w).ok,
        w is D || w is Q,
        s.stack.len() >= 2,
        const_operand(w, s.stack[s.stack.len() - 2]) is Some,
    ensures
        s.computes(
            s.relation(rel, w),
            m,
            2,
            Width::Q,
            as_number(rel.holds(w, s.top(m, 1), s.top(m, 0))),
        ),
{
    broadcast use {lemma_ran_push, lemma_ran_nothing, lemma_uses_push};

    let n = s.stack.len() as int;
    let (s1, right) = s.pop();
    let (s2, left) = s1.pop();
    let imm = const_operand(w, left)->0;
    lemma_owns_pop(s, none());
    lemma_owns_pop(s1, one(right));
    lemma_owns_forget(s2, one(right), left);
    assert(s2.stack =~= s.stack.take(n - 2));
    lemma_operand(s, m, w, left);
    let t = s.relation(rel, w);
    match right {
        ValueLocation::Immediate(_) => {
            lemma_operand(s, m, w, right);
            lemma_push_folded(
                s,
                m,
                2,
                t,
                Value::I32(
                    if fold_relation(rel, w, imm, const_operand(w, right)->0) {
                        1
                    } else {
                        0
                    },
                ),
            );
            if w is D {
                lemma_i32_views(left.imm_i32()->0);
                lemma_i32_views(right.imm_i32()->0);
            } else {
                lemma_i64_views(left.imm_i64()->0);
                lemma_i64_views(right.imm_i64()->0);
            }
        },
        _ => {
            let (s3, result) = s2.take(GPRType::Rq);
            taken_is_unused(s2, one(right), GPRType::Rq);
            assert(one(right)[0].valid());
            lemma_operand(s, m, w, right);
            reversed_relation(rel, w, s.top(m, 1), s.top(m, 0));
            lemma_compare(
                s3,
                m,
                s.code,
                w,
                result.id(),
                operand_of(s2, w, right),
                Operand::Imm(imm),
                rel.reverse(),
            );
            let s4 = s3.compare(
                w,
                result.id(),
                operand_of(s2, w, right),
                Operand::Imm(imm),
                rel.reverse().cond(),
            );
            let r = ValueLocation::Reg(result);
            lemma_owns_reorder(s4, one(right).push(r), two(r, right));
            lemma_owns_free(s4, one(r), right);
            let s5 = s4.free_value(right);
            lemma_push_result(s, s5, m, 2, r);
            assert(t == s5.push(r));
        },
    }
}

/// A comparison with the left value in a register.
proof fn lemma_relation_reg(s: State, m: Machine, rel: Relation, w: Width)
    requires
        s.at(m),
        s.relation(rel, w).ok,
        w is D || w is Q,
        s.stack.len() >= 2,
        const_operand(w, s.stack[s.stack.len() - 2]) is None,
    ensures
        s.computes(
            s.relation(rel, w),
            m,
            2,
            Width::Q,
            as_number(rel.holds(w, s.top(m, 1), s.top(m, 0))),
        ),
{
    broadcast use {lemma_ran_push, lemma_ran_nothing, lemma_uses_push};

    let n = s.stack.len() as int;
    let (s1, right) = s.pop();
    let (s2, left) = s1.pop();
    lemma_owns_pop(s, none());
    lemma_owns_pop(s1, one(right));
    assert(s2.stack =~= s.stack.take(n - 2));
    let t = s.relation(rel, w);
    let (s3, lreg) = s2.into_reg(Some(GPRType::Rq), left);
    let (s4, result) = s3.take(GPRType::Rq);
    assert(s4.ok && s3.ok);
    let l = ValueLocation::Reg(lreg);
    let r = ValueLocation::Reg(result);
    lemma_into_reg(s2, m, s.code, one(right), Some(GPRType::Rq), left);
    taken_is_unused(s3, two(right, l), GPRType::Rq);
    assert(two(right, l)[0].valid());
    let n3 = ran(m, s.code, s3.code);
    assert(s3.value_of(n3, right) == s.value_of(m, right)) by {
        if right is Reg {
            assert(s2.known_uses(one(right), right->Reg_0) > 0);
            assert(n3.gpr(right->Reg_0) == m.gpr(right->Reg_0));
        }
    }
    let op = operand_of(s4, w, right);
    lemma_operand(s4, n3, w, right);
    lemma_operand(s4, n3, w, l);
    lemma_compare(s4, m, s.code, w, result.id(), Operand::Gpr(lreg), op, rel);
    let s5 = s4.compare(w, result.id(), Operand::Gpr(lreg), op, rel.cond());
    lemma_owns_code(s4, s5, two(right, l).push(r));
    lemma_owns_reorder(s5, two(right, l).push(r), two(r, right).push(l));
    lemma_owns_free(s5, two(r, right), l);
    let s6 = s5.release(lreg);
    lemma_owns_free(s6, one(r), right);
    let s7 = s6.free_value(right);
    assert(t == s7.push(r));
    let n7 = ran(m, s.code, s7.code);
    assert(s7.same_values(none(), m, n7)) by {
        assert forall|g: GPR| g.valid() && s7.known_uses(none(), g) > 0 implies #[trigger] n7.gpr(g)
            == m.gpr(g) by {
            assert(s2.known_uses(one(right), g) > 0);
            assert(n3.gpr(g) == m.gpr(g));
        }
    }
    lemma_push_result(s, s7, m, 2, r);
}

/// The comparisons of integers leave on the stack one if the two values on top of it stand in
/// the relation, and zero otherwise.
pub proof fn comparison(s: State, m: Machine, rel: Relation, w: Width)
    requires
        s.at(m),
        s.relation(rel, w).ok,
        w is D || w is Q,
    ensures
        s.computes(
            s.relation(rel, w),
            m,
            2,
            Width::Q,
            as_number(rel.holds(w, s.top(m, 1), s.top(m, 0))),
        ),
{
    if const_operand(w, s.stack.drop_last().last()) is Some {
        lemma_relation_const(s, m, rel, w);
    } else {
        lemma_relation_reg(s, m, rel, w);
    }
}

/// `eqz` leaves on the stack one if the value on top of it is zero, and zero otherwise.
pub proof fn comparison_with_zero(s: State, m: Machine, w: Width)
    requires
        s.at(m),
        s.eqz(w).ok,
        w is D || w is Q,
    ensures
        s.computes(
            s.eqz(w),
            m,
            1,
            Width::Q,
            as_number(Relation::Eq.holds(w, s.top(m, 0), 0)),
        ),
{
    broadcast use {lemma_ran_push, lemma_ran_nothing, lemma_uses_push};

    let n = s.stack.len() as int;
    let (s1, val) = s.pop();
    lemma_owns_pop(s, none());
    assert(s1.stack =~= s.stack.take(n - 1));
    let t = s.eqz(w);
    lemma_u64_views(s.top(m, 0));
    lemma_u64_views(0);
    match const_operand(w, val) {
        Some(imm) => {
            lemma_operand(s, m, w, val);
            if w is D {
                lemma_i32_views(val.imm_i32()->0);
            } else {
                lemma_i64_views(imm);
            }
            lemma_push_folded(
                s,
                m,
                1,
                t,
                Value::I32(
                    if imm == 0 {
                        1
                    } else {
                        0
                    },
                ),
            );
        },
        None => {
            let (s2, reg) = s1.into_reg(Some(GPRType::Rq), val);
            let (s3, out) = s2.take(GPRType::Rq);
            let v = ValueLocation::Reg(reg);
            let r = ValueLocation::Reg(out);
            lemma_into_reg(s1, m, s.code, none(), Some(GPRType::Rq), val);
            assert(reg.id() != rq::RSP) by {
                assert(one(v)[0].valid());
            }
            taken_is_unused(s2, one(v), GPRType::Rq);
            let n2 = ran(m, s.code, s2.code);
            lemma_set_byte(n2.rq[out.id() as int]);
            let s4 = s3.emit(
                Insn::Alu { op: AluOp::Xor, w: Width::D, dst: out.id(), src: Operand::Gpr(out) },
            );
            let n4 = ran(m, s.code, s4.code);
            assert(n4.gpr(reg) == s.top(m, 0));
            let s5 = s4.emit(Insn::Test { w, left: reg.id(), right: Operand::Gpr(reg) });
            let n5 = ran(m, s.code, s5.code);
            assert(n5.flags is Some);
            assert(n5.flags->0.zero == Relation::Eq.holds(w, s.top(m, 0), 0));
            let s6 = s5.emit(Insn::Setcc { cond: Cond::E, dst: out.id() });
            let n6 = ran(m, s.code, s6.code);
            lemma_owns_code(s3, s6, two(v, r));
            lemma_owns_reorder(s6, two(v, r), two(r, v));
            lemma_owns_free(s6, one(r), v);
            let s7 = s6.release(reg);
            assert(s7.same_values(none(), m, n6)) by {
                assert forall|g: GPR|
                    g.valid() && s7.known_uses(none(), g) > 0 implies #[trigger] n6.gpr(
                    g,
                ) == m.gpr(g) by {
                    assert(n2.gpr(g) == m.gpr(g));
                }
            }
            lemma_push_result(s, s7, m, 1, r);
            assert(t == s7.push(r));
        },
    }
}

} // verus!
