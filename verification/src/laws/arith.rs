//! The operators on integers.

use vstd::prelude::*;

use crate::bits::{lemma_i32_views, lemma_i64_views, lemma_u32_views, lemma_u64_views};
use crate::arith::{fold_bits, fold_i32, fold_i64, mul_immediate, order_operands, BinOp};
use crate::insn::{AluOp, BitOp, Insn, Operand, Width};
use crate::laws::{lemma_push_result, lemma_result_in, none, one, two};
use crate::location::ValueLocation;
use crate::machine::{alu, alu_32, bit_count, product, signed, trunc, Machine};
use crate::microwasm::Value;
use crate::ownership::{
    lemma_owns_forget, lemma_owns_free, lemma_owns_hold, lemma_owns_pop, lemma_owns_swap,
    lemma_uses_push, taken_is_unused, use_then_release,
};
use crate::registers::{rq, GPRType, RegId, GPR};
use crate::simulation::{
    copy_to_register, lemma_into_reg, lemma_into_temp_reg, lemma_ran_nothing, lemma_ran_push, ran,
};
use crate::state::State;

verus! {

pub proof fn lemma_i32_as_u32(a: i32)
    ensures
        a as u32 == (if a < 0 {
            a + 0x1_0000_0000
        } else {
            a as int
        }),
{
    lemma_i32_views(a);
}

pub proof fn lemma_i64_as_u64(a: i64)
    ensures
        a as u64 == (if a < 0 {
            a + 0x1_0000_0000_0000_0000
        } else {
            a as int
        }),
{
    lemma_i64_views(a);
}

proof fn lemma_bitwise_i32(a: i32, b: i32)
    by (bit_vector)
    ensures
        (a as u32) & (b as u32) == (a & b) as u32,
        (a as u32) | (b as u32) == (a | b) as u32,
        (a as u32) ^ (b as u32) == (a ^ b) as u32,
{
}

proof fn lemma_bitwise_i64(a: i64, b: i64)
    by (bit_vector)
    ensures
        (a as u64) & (b as u64) == (a & b) as u64,
        (a as u64) | (b as u64) == (a | b) as u64,
        (a as u64) ^ (b as u64) == (a ^ b) as u64,
{
}

/// Folding two constants gives what the instruction gives.
pub proof fn folded_i32(op: AluOp, a: i32, b: i32)
    ensures
        fold_i32(op, a, b) as u32 == alu_32(op, a as u32, b as u32),
{
    lemma_i32_as_u32(a);
    lemma_i32_as_u32(b);
    lemma_i32_as_u32(fold_i32(op, a, b));
    lemma_bitwise_i32(a, b);
}

/// Folding two constants gives what the instruction gives.
pub proof fn folded_i64(op: AluOp, a: i64, b: i64)
    ensures
        fold_i64(op, a, b) as u64 == alu(op, Width::Q, a as u64, b as u64),
{
    lemma_i64_as_u64(a);
    lemma_i64_as_u64(b);
    lemma_i64_as_u64(fold_i64(op, a, b));
    lemma_bitwise_i64(a, b);
}

pub proof fn lemma_i32_bytes(a: i32)
    ensures
        ((a as i64) as u64) as u32 == a as u32,
        ((a as u32) as i64) as u64 == a as u32,
{
    lemma_i32_views(a);
}

/// The width of an operator on integers.
pub open spec fn width_of(op: BinOp) -> Width {
    match op {
        BinOp::I32(_) => Width::D,
        _ => Width::Q,
    }
}

pub open spec fn alu_of(op: BinOp) -> AluOp {
    match op {
        BinOp::I32(op) => op,
        BinOp::I64(op) => op,
        _ => AluOp::Add,
    }
}

/// Whether `loc` is no constant of a type with fewer than 64 bits.
pub open spec fn wide(loc: ValueLocation) -> bool {
    loc is Immediate ==> loc->Immediate_0 is I64 || loc->Immediate_0 is F64
}

impl State {
    /// Whether the step from `self` to `t` left in the register `r` what the operator gives for
    /// it and the value at `right`, and changed nothing else that is in use.
    pub open spec fn applied(
        self,
        t: State,
        m: Machine,
        from: Seq<Insn>,
        op: BinOp,
        r: RegId,
        right: ValueLocation,
    ) -> bool {
        let before = ran(m, from, self.code);
        let n = ran(m, from, t.code);
        &&& t.reached(m, from)
        &&& t.owns(one(ValueLocation::Reg(GPR::Rq(r))))
        &&& t.stack == self.stack
        &&& t.depth == self.depth
        &&& t.same_values(none(), before, n)
        &&& n.rq[r as int] == alu(
            alu_of(op),
            width_of(op),
            before.rq[r as int],
            self.value_of(before, right),
        )
    }
}

proof fn lemma_apply_register(
    s: State,
    m: Machine,
    from: Seq<Insn>,
    op: BinOp,
    r: RegId,
    right: ValueLocation,
)
    requires
        s.reached(m, from),
        op is I32 || op is I64 && wide(right),
        s.owns(two(ValueLocation::Reg(GPR::Rq(r)), right)),
        s.known_uses(none(), GPR::Rq(r)) == 0,
        s.apply(op, r, right).ok,
        right is Reg,
    ensures
        s.applied(s.apply(op, r, right), m, from, op, r, right),
{
    broadcast use lemma_uses_push;

    let left = ValueLocation::Reg(GPR::Rq(r));
    let before = ran(m, from, s.code);
    assert(two(left, right)[0].valid());
    let (s1, reg) = s.into_reg(Some(op.file()), right);
    assert(s1.ok);
    lemma_into_reg(s, m, from, one(left), Some(op.file()), right);
    let insn = op.insn(r, Operand::Gpr(reg));
    let s2 = s1.emit(insn);
    lemma_ran_push(m, from, s1.code, insn);
    lemma_owns_free(s2, one(left), ValueLocation::Reg(reg));
    let n1 = ran(m, from, s1.code);
    assert(s.known_uses(one(left), GPR::Rq(r)) > 0);
    assert(n1.gpr(GPR::Rq(r)) == before.gpr(GPR::Rq(r)));
    let n = ran(m, from, s2.code);
    assert forall|g: GPR| g.valid() && s.known_uses(none(), g) > 0 implies #[trigger] n.gpr(g)
        == before.gpr(g) by {
        assert(s.known_uses(one(left), g) > 0);
        assert(n1.gpr(g) == before.gpr(g));
    }
}

proof fn lemma_apply_constant(
    s: State,
    m: Machine,
    from: Seq<Insn>,
    op: BinOp,
    r: RegId,
    right: ValueLocation,
)
    requires
        s.reached(m, from),
        op is I32 || op is I64 && wide(right),
        s.owns(two(ValueLocation::Reg(GPR::Rq(r)), right)),
        s.known_uses(none(), GPR::Rq(r)) == 0,
        s.apply(op, r, right).ok,
        right is Immediate,
        !op.encodable(right->Immediate_0),
    ensures
        s.applied(s.apply(op, r, right), m, from, op, r, right),
{
    broadcast use lemma_uses_push;

    let left = ValueLocation::Reg(GPR::Rq(r));
    let before = ran(m, from, s.code);
    assert(two(left, right)[0].valid());
    let imm = right->Immediate_0;
    lemma_owns_free(s, one(left), right);
    let (s1, scratch) = s.take(op.file());
    let x = ValueLocation::Reg(scratch);
    taken_is_unused(s, one(left), op.file());
    let rsp = GPR::Rq(rq::RSP);
    assert(s1.regs.count(rsp) >= s1.known_uses(two(left, x), rsp));
    copy_to_register(s1, m, from, right, scratch);
    let s2 = s1.immediate_to_reg(scratch, imm);
    let insn = op.insn(r, Operand::Gpr(scratch));
    let s3 = s2.emit(insn);
    lemma_ran_push(m, from, s2.code, insn);
    lemma_owns_free(s3, one(left), x);
    let n2 = ran(m, from, s2.code);
    assert(s1.regs.count(GPR::Rq(r)) >= s1.known_uses(two(left, x), GPR::Rq(r)));
    assert(n2.gpr(GPR::Rq(r)) == before.gpr(GPR::Rq(r)));
    let n = ran(m, from, s3.code);
    assert forall|g: GPR| g.valid() && s.known_uses(none(), g) > 0 implies #[trigger] n.gpr(g)
        == before.gpr(g) by {
        assert(s1.regs.count(g) >= s1.known_uses(two(left, x), g));
        assert(n2.gpr(g) == before.gpr(g));
    }
}

/// Combining the value in a register of which no other value has need with another one.
pub proof fn lemma_apply(
    s: State,
    m: Machine,
    from: Seq<Insn>,
    op: BinOp,
    r: RegId,
    right: ValueLocation,
)
    requires
        s.reached(m, from),
        op is I32 || op is I64 && wide(right),
        s.owns(two(ValueLocation::Reg(GPR::Rq(r)), right)),
        s.known_uses(none(), GPR::Rq(r)) == 0,
        s.apply(op, r, right).ok,
    ensures
        s.applied(s.apply(op, r, right), m, from, op, r, right),
{
    broadcast use {lemma_ran_push, lemma_uses_push};

    let left = ValueLocation::Reg(GPR::Rq(r));
    assert(two(left, right)[0].valid());
    match right {
        ValueLocation::Reg(_) => {
            lemma_apply_register(s, m, from, op, r, right);
        },
        ValueLocation::Stack(o) => {
            lemma_owns_free(s, one(left), right);
        },
        ValueLocation::Immediate(imm) => {
            if op.encodable(imm) {
                lemma_owns_free(s, one(left), right);
                if imm is I32 {
                    lemma_i32_bytes(imm->I32_0);
                }
            } else {
                lemma_apply_constant(s, m, from, op, r, right);
            }
        },
    }
}

/// An operator on two values that are not both constants.
proof fn lemma_binop(s: State, m: Machine, op: BinOp, folded: Value)
    requires
        s.at(m),
        s.binop(op, folded).ok,
        !s.both_const(op),
        op is I32 || op is I64 && wide(s.stack[s.stack.len() - 1]) && wide(
            s.stack[s.stack.len() - 2],
        ),
    ensures
        s.computes(
            s.binop(op, folded),
            m,
            2,
            width_of(op),
            alu(alu_of(op), width_of(op), s.top(m, 1), s.top(m, 0)),
        ),
{
    broadcast use {lemma_ran_push, lemma_ran_nothing, lemma_uses_push};

    let (s1, right) = s.pop();
    let (s2, left) = s1.pop();
    let (a, b) = if op.commutes() {
        order_operands(left, right)
    } else {
        (left, right)
    };
    let (s3, reg) = s2.into_temp_reg(Some(op.file()), a);
    let s4 = s3.apply(op, reg.id(), b);
    assert(s4.ok && s3.ok && s2.ok && s1.ok);
    lemma_owns_pop(s, none());
    lemma_owns_pop(s1, one(right));
    assert(s2.owns(two(right, left)));
    if a == left {
    } else {
        lemma_owns_swap(s2, none(), right, left);
    }
    assert(s2.owns(two(b, a)));
    lemma_into_temp_reg(s2, m, s.code, one(b), Some(op.file()), a);
    let r = ValueLocation::Reg(reg);
    lemma_owns_swap(s3, none(), b, r);
    lemma_apply(s3, m, s.code, op, reg.id(), b);
    let n3 = ran(m, s.code, s3.code);
    assert(s3.value_of(n3, b) == s.value_of(m, b)) by {
        assert(two(b, a)[0].valid());
        if b is Reg {
            assert(s2.known_uses(one(b), b->Reg_0) > 0);
            assert(n3.gpr(b->Reg_0) == m.gpr(b->Reg_0));
        }
    }
    let n4 = ran(m, s.code, s4.code);
    assert(s4.same_values(none(), m, n4)) by {
        assert forall|g: GPR| g.valid() && s4.known_uses(none(), g) > 0 implies #[trigger] n4.gpr(g)
            == m.gpr(g) by {
            assert(s2.known_uses(one(b), g) > 0);
            assert(n3.gpr(g) == m.gpr(g));
            assert(n4.gpr(g) == n3.gpr(g));
        }
    }
    assert(s4.stack =~= s.stack.take(s.stack.len() - 2));
    lemma_push_result(s, s4, m, 2, r);
    lemma_alu_commutes(op, s.value_of(m, left), s.value_of(m, right));
}

/// A constant takes the place of the `count` topmost values.
pub proof fn lemma_push_folded(s: State, m: Machine, count: int, t: State, folded: Value)
    requires
        s.at(m),
        0 <= count <= s.stack.len(),
        t == s.with_stack(s.stack.take(s.stack.len() - count)).push(
            ValueLocation::Immediate(folded),
        ),
    ensures
        s.computes(t, m, count, Width::Q, folded.as_bytes() as u64),
{
    broadcast use {lemma_ran_nothing, lemma_uses_push};

    let u = s.with_stack(s.stack.take(s.stack.len() - count));
    lemma_owns_take(s, count);
    lemma_owns_hold(u, none(), ValueLocation::Immediate(folded));
    lemma_push_result(s, u, m, count, ValueLocation::Immediate(folded));
}

/// Values that leave the stack may go uncounted.
pub proof fn lemma_owns_take(s: State, count: int)
    requires
        s.owns(none()),
        0 <= count <= s.stack.len(),
    ensures
        s.with_stack(s.stack.take(s.stack.len() - count)).owns(none()),
    decreases count,
{
    if count == 0 {
        assert(s.stack.take(s.stack.len() - count) =~= s.stack);
    } else {
        lemma_owns_take(s, count - 1);
        let u = s.with_stack(s.stack.take(s.stack.len() - (count - 1)));
        lemma_owns_pop(u, none());
        lemma_owns_forget(u.pop().0, none(), u.pop().1);
        assert(u.stack.drop_last() =~= s.stack.take(s.stack.len() - count));
        let t = s.with_stack(s.stack.take(s.stack.len() - count));
        assert(t.regs == u.pop().0.regs && t.stack == u.pop().0.stack);
        assert forall|g: GPR| g.valid() implies #[trigger] t.regs.count(g) >= t.known_uses(
            none(),
            g,
        ) by {
            assert(u.pop().0.regs.count(g) >= u.pop().0.known_uses(none(), g));
        }
    }
}

/// `i32.add`, `i32.sub`, `i32.and`, `i32.or` and `i32.xor` leave on the stack what the operator
/// gives for the two values on top of it.
pub proof fn i32_operators(s: State, m: Machine, op: AluOp)
    requires
        s.at(m),
        s.binop_i32(op).ok,
    ensures
        s.computes(
            s.binop_i32(op),
            m,
            2,
            Width::D,
            alu_32(op, s.top(m, 1) as u32, s.top(m, 0) as u32) as u64,
        ),
{
    let n = s.stack.len() as int;
    if s.both_const(BinOp::I32(op)) {
        let a = s.stack[n - 2].imm_i32()->0;
        let b = s.stack[n - 1].imm_i32()->0;
        let folded = fold_i32(op, a, b);
        folded_i32(op, a, b);
        lemma_i32_bytes(a);
        lemma_i32_bytes(b);
        lemma_i32_bytes(folded);
        assert(s.stack.drop_last().drop_last() =~= s.stack.take(n - 2));
        lemma_push_folded(s, m, 2, s.binop_i32(op), Value::I32(folded));
    } else {
        lemma_binop(
            s,
            m,
            BinOp::I32(op),
            Value::I32(fold_i32(op, s.stack[n - 2].imm_i32()->0, s.stack[n - 1].imm_i32()->0)),
        );
    }
}

/// `i64.add`, `i64.sub`, `i64.and`, `i64.or` and `i64.xor` leave on the stack what the operator
/// gives for the two values on top of it.
pub proof fn i64_operators(s: State, m: Machine, op: AluOp)
    requires
        s.at(m),
        s.binop_i64(op).ok,
        wide(s.stack[s.stack.len() - 1]),
        wide(s.stack[s.stack.len() - 2]),
    ensures
        s.computes(
            s.binop_i64(op),
            m,
            2,
            Width::Q,
            alu(op, Width::Q, s.top(m, 1), s.top(m, 0)),
        ),
{
    let n = s.stack.len() as int;
    if s.both_const(BinOp::I64(op)) {
        let a = s.stack[n - 2].imm_i64()->0;
        let b = s.stack[n - 1].imm_i64()->0;
        let folded = fold_i64(op, a, b);
        folded_i64(op, a, b);
        assert(s.stack.drop_last().drop_last() =~= s.stack.take(n - 2));
        lemma_push_folded(s, m, 2, s.binop_i64(op), Value::I64(folded));
    } else {
        lemma_binop(
            s,
            m,
            BinOp::I64(op),
            Value::I64(fold_i64(op, s.stack[n - 2].imm_i64()->0, s.stack[n - 1].imm_i64()->0)),
        );
    }
}

proof fn lemma_alu_commutes(op: BinOp, a: u64, b: u64)
    ensures
        op.commutes() ==> alu(alu_of(op), width_of(op), a, b) == alu(
            alu_of(op),
            width_of(op),
            b,
            a,
        ),
{
    lemma_bitwise_commutes(a, b);
    lemma_bitwise_commutes_32(a as u32, b as u32);
}

proof fn lemma_bitwise_commutes(a: u64, b: u64)
    by (bit_vector)
    ensures
        a & b == b & a,
        a | b == b | a,
        a ^ b == b ^ a,
{
}

proof fn lemma_bitwise_commutes_32(a: u32, b: u32)
    by (bit_vector)
    ensures
        a & b == b & a,
        a | b == b | a,
        a ^ b == b ^ a,
{
}

pub proof fn lemma_count_bytes(count: u32)
    ensures
        (((count as i32) as u32) as i64) as u64 == count,
{
    lemma_u32_views(count);
}

proof fn lemma_count_in_constant(s: State, m: Machine, op: BitOp, w: Width)
    requires
        s.at(m),
        s.unop(op, w).ok,
        s.stack.last() is Immediate,
        w is D || w is Q && wide(s.stack.last()),
    ensures
        s.computes(s.unop(op, w), m, 1, w, bit_count(op, w, s.top(m, 0))),
{
    let imm = s.stack.last()->Immediate_0;
    let folded = fold_bits(op, w, imm.as_int()->0);
    assert(s.pop().0.stack =~= s.stack.take(s.stack.len() - 1));
    lemma_push_folded(s, m, 1, s.unop(op, w), folded);
    lemma_count_bytes(bit_count(op, w, s.top(m, 0)) as u32);
    if imm is I32 {
        lemma_i32_bytes(imm->I32_0);
    }
    lemma_low_half(imm.as_int()->0);
}

proof fn lemma_count_trunc(op: BitOp, w: Width, v: u64)
    requires
        w is D || w is Q,
    ensures
        bit_count(op, w, trunc(w, v)) == bit_count(op, w, v),
{
}

proof fn lemma_count_in_slot(s: State, m: Machine, op: BitOp, w: Width)
    requires
        s.at(m),
        s.unop(op, w).ok,
        s.stack.last() is Stack,
        w is D || w is Q,
    ensures
        s.computes(s.unop(op, w), m, 1, w, bit_count(op, w, s.top(m, 0))),
{
    broadcast use {lemma_ran_push, lemma_ran_nothing, lemma_uses_push};

    let (s1, val) = s.pop();
    let o = val->Stack_0;
    lemma_owns_pop(s, none());
    assert(s1.stack =~= s.stack.take(s.stack.len() - 1));
    lemma_owns_forget(s1, none(), val);
    let s2 = s1.need(s1.has_slot(o));
    let (s3, temp) = s2.take(GPRType::Rq);
    taken_is_unused(s2, none(), GPRType::Rq);
    let insn = Insn::CountBits { op, w, dst: temp.id(), src: s2.slot(o) };
    let s4 = s3.emit(insn);
    let n = ran(m, s.code, s4.code);
    assert(n == m.step(insn));
    assert(m.read(w, s2.slot(o)) == trunc(w, s.top(m, 0)));
    lemma_count_trunc(op, w, s.top(m, 0));
    assert(n.gpr(temp) == trunc(w, bit_count(op, w, s.top(m, 0))));
    lemma_result_in(s, s4, m, 1, temp);
}

proof fn lemma_count_in_register(s: State, m: Machine, op: BitOp, w: Width)
    requires
        s.at(m),
        s.unop(op, w).ok,
        s.stack.last() is Reg,
        w is D || w is Q,
    ensures
        s.computes(s.unop(op, w), m, 1, w, bit_count(op, w, s.top(m, 0))),
{
    broadcast use {lemma_ran_push, lemma_ran_nothing, lemma_uses_push};

    let (s1, val) = s.pop();
    let reg = val->Reg_0;
    lemma_owns_pop(s, none());
    assert(s1.stack =~= s.stack.take(s.stack.len() - 1));
    let (s3, temp) = s1.take(GPRType::Rq);
    taken_is_unused(s1, one(val), GPRType::Rq);
    let s4 = s3.need(reg is Rq).emit(
        Insn::CountBits { op, w, dst: temp.id(), src: Operand::Gpr(reg) },
    );
    lemma_owns_swap(s4, none(), val, ValueLocation::Reg(temp));
    lemma_owns_free(s4, one(ValueLocation::Reg(temp)), val);
    assert(one(val)[0].valid());
    lemma_result_in(s, s4.release(reg), m, 1, temp);
}

/// `clz`, `ctz` and `popcnt` leave on the stack the number of bits.
pub proof fn bit_operators(s: State, m: Machine, op: BitOp, w: Width)
    requires
        s.at(m),
        s.unop(op, w).ok,
        w is D || w is Q && wide(s.stack.last()),
    ensures
        s.computes(s.unop(op, w), m, 1, w, bit_count(op, w, s.top(m, 0))),
{
    match s.stack.last() {
        ValueLocation::Immediate(_) => lemma_count_in_constant(s, m, op, w),
        ValueLocation::Stack(_) => lemma_count_in_slot(s, m, op, w),
        ValueLocation::Reg(_) => lemma_count_in_register(s, m, op, w),
    }
}

proof fn lemma_low_half(val: i64)
    ensures
        (val as u64) as u32 == val as u32,
{
    lemma_i64_views(val);
}

/// `i64.extend_i32_u` leaves on the stack the lower half of the value, with zeros above.
pub proof fn extension_with_zeros(s: State, m: Machine)
    requires
        s.at(m),
        s.extend_u().ok,
    ensures
        s.computes(s.extend_u(), m, 1, Width::Q, s.top(m, 0) as u32 as u64),
{
    broadcast use {lemma_ran_push, lemma_ran_nothing, lemma_uses_push};

    let n = s.stack.len() as int;
    let (s1, val) = s.pop();
    lemma_owns_pop(s, none());
    assert(s1.stack =~= s.stack.take(n - 1));
    assert(one(val)[0].valid());
    lemma_owns_free(s1, none(), val);
    let s2 = s1.free_value(val);
    let (s3, new_reg) = s2.take(GPRType::Rq);
    taken_is_unused(s2, none(), GPRType::Rq);
    match val {
        ValueLocation::Immediate(imm) => {
            use_then_release(s2.regs, new_reg);
            lemma_i32_bytes(imm.as_i32()->0);
            lemma_push_folded(
                s,
                m,
                1,
                s.extend_u(),
                Value::I64(imm.as_i32()->0 as u32 as u64 as i64),
            );
        },
        _ => {
            let t = s.extend_u();
            let u = t.pop().0;
            assert(u.stack =~= s.stack.take(n - 1));
            assert(t == u.push(ValueLocation::Reg(new_reg)));
            lemma_owns_code(s3, u, one(ValueLocation::Reg(new_reg)));
            lemma_result_in(s, u, m, 1, new_reg);
        },
    }
}

/// Emitting code changes no accounts.
pub proof fn lemma_owns_code(s: State, t: State, held: Seq<ValueLocation>)
    requires
        s.owns(held),
        t.stack == s.stack,
        t.regs == s.regs,
    ensures
        t.owns(held),
{
    assert forall|h: GPR| h.valid() implies #[trigger] t.regs.count(h) >= t.known_uses(held, h) by {
        assert(s.regs.count(h) >= s.known_uses(held, h));
    }
}

pub proof fn lemma_i32_of_bytes(a: i32)
    ensures
        (((a as u32) as i64) as u64) as i32 == a,
{
    lemma_i32_views(a);
}

/// `i64.extend_i32_s` leaves on the stack the lower half of the value, with its sign above.
pub proof fn extension_with_sign(s: State, m: Machine)
    requires
        s.at(m),
        s.extend_s().ok,
    ensures
        s.computes(
            s.extend_s(),
            m,
            1,
            Width::Q,
            signed(Width::D, s.top(m, 0)) as u64,
        ),
{
    broadcast use {lemma_ran_push, lemma_ran_nothing, lemma_uses_push};

    let n = s.stack.len() as int;
    let (s1, val) = s.pop();
    lemma_owns_pop(s, none());
    assert(s1.stack =~= s.stack.take(n - 1));
    assert(one(val)[0].valid());
    lemma_owns_free(s1, none(), val);
    let s2 = s1.free_value(val);
    let (s3, new_reg) = s2.take(GPRType::Rq);
    taken_is_unused(s2, none(), GPRType::Rq);
    lemma_signed_low_half(s.top(m, 0));
    match val {
        ValueLocation::Immediate(imm) => {
            use_then_release(s2.regs, new_reg);
            lemma_i32_of_bytes(imm.as_i32()->0);
            lemma_push_folded(s, m, 1, s.extend_s(), Value::I64(imm.as_i32()->0 as i64));
        },
        _ => {
            let t = s.extend_s();
            let u = t.pop().0;
            assert(u.stack =~= s.stack.take(n - 1));
            assert(t == u.push(ValueLocation::Reg(new_reg)));
            lemma_owns_code(s3, u, one(ValueLocation::Reg(new_reg)));
            lemma_result_in(s, u, m, 1, new_reg);
        },
    }
}

proof fn lemma_signed_low_half(v: u64)
    ensures
        ((v as u32) as u64) as i32 == v as i32,
{
    lemma_u64_views(v);
}

/// Multiplying two constants gives what the instruction gives.
pub proof fn folded_product_i64(a: i64, b: i64)
    ensures
        a.wrapping_mul(b) as u64 == product(Width::Q, a as u64, b as u64),
{
    let range = 0x1_0000_0000_0000_0000int;
    lemma_i64_as_u64(a);
    lemma_i64_as_u64(b);
    lemma_i64_as_u64(a.wrapping_mul(b));
    vstd::arithmetic::div_mod::lemma_mul_mod_noop(a as int, b as int, range);
}

/// Multiplying two constants gives what the instruction gives.
pub proof fn folded_product_i32(a: i32, b: i32)
    ensures
        a.wrapping_mul(b) as u32 == (a as u32).wrapping_mul(b as u32),
{
    let range = 0x1_0000_0000int;
    lemma_i32_as_u32(a);
    lemma_i32_as_u32(b);
    lemma_i32_as_u32(a.wrapping_mul(b));
    vstd::arithmetic::div_mod::lemma_mul_mod_noop(a as int, b as int, range);
}

proof fn lemma_product_commutes(w: Width, a: u64, b: u64)
    ensures
        product(w, a, b) == product(w, b, a),
{
    vstd::arithmetic::mul::lemma_mul_is_commutative(a as int, b as int);
    vstd::arithmetic::mul::lemma_mul_is_commutative(a as u32 as int, b as u32 as int);
}

proof fn lemma_mul_constants(s: State, m: Machine, w: Width)
    requires
        s.at(m),
        s.mul(w).ok,
        w is D || w is Q,
        s.stack.len() >= 2,
        s.stack[s.stack.len() - 1] is Immediate,
        s.stack[s.stack.len() - 2] is Immediate,
    ensures
        s.computes(s.mul(w), m, 2, w, product(w, s.top(m, 1), s.top(m, 0))),
{
    let n = s.stack.len() as int;
    let right = s.stack[n - 1];
    let left = s.stack[n - 2];
    assert(s.stack.drop_last().drop_last() =~= s.stack.take(n - 2));
    lemma_product_commutes(w, s.top(m, 1), s.top(m, 0));
    match w {
        Width::Q => {
            let (a, b) = (right.imm_i64()->0, left.imm_i64()->0);
            folded_product_i64(a, b);
            lemma_push_folded(s, m, 2, s.mul(w), Value::I64(a.wrapping_mul(b)));
        },
        _ => {
            let (a, b) = (right.imm_i32()->0, left.imm_i32()->0);
            folded_product_i32(a, b);
            lemma_i32_bytes(a);
            lemma_i32_bytes(b);
            lemma_i32_bytes(a.wrapping_mul(b));
            lemma_push_folded(s, m, 2, s.mul(w), Value::I32(a.wrapping_mul(b)));
        },
    }
}

/// Multiplying the value in hand by a constant. The values below are those of `s`.
proof fn lemma_mul_by_immediate(
    s: State,
    u: State,
    m: Machine,
    w: Width,
    a: ValueLocation,
    imm: Value,
)
    requires
        s.at(m),
        w is D || w is Q,
        s.stack.len() >= 2,
        u.stack == s.stack.take(s.stack.len() - 2),
        u.depth == s.depth,
        u.code == s.code,
        u.owns(one(a)),
        ({
            let (s3, reg) = u.into_reg(Some(GPRType::Rq), a);
            let (s5, new_reg) = s3.release(reg).take(GPRType::Rq);
            s5.ok && mul_immediate(w, imm) is Some
        }),
    ensures
        ({
            let (s3, reg) = u.into_reg(Some(GPRType::Rq), a);
            let (s5, new_reg) = s3.release(reg).take(GPRType::Rq);
            let t = s5.emit(
                Insn::ImulImm {
                    w,
                    dst: new_reg.id(),
                    src: reg.id(),
                    imm: mul_immediate(w, imm)->0,
                },
            ).push(ValueLocation::Reg(new_reg));
            s.computes(t, m, 2, w, product(w, s.value_of(m, a), imm.as_bytes() as u64))
        }),
{
    broadcast use {lemma_ran_push, lemma_ran_nothing, lemma_uses_push};

    let val_a = s.value_of(m, a);
    let val_b = imm.as_bytes() as u64;
    let (s3, reg) = u.into_reg(Some(GPRType::Rq), a);
    let s4 = s3.release(reg);
    let (s5, new_reg) = s4.take(GPRType::Rq);
    lemma_into_reg(u, m, s.code, none(), Some(GPRType::Rq), a);
    lemma_owns_free(s3, none(), ValueLocation::Reg(reg));
    taken_is_unused(s4, none(), GPRType::Rq);
    let by = mul_immediate(w, imm)->0;
    let s6 = s5.emit(Insn::ImulImm { w, dst: new_reg.id(), src: reg.id(), imm: by });
    let n3 = ran(m, s.code, s3.code);
    let n6 = ran(m, s.code, s6.code);
    lemma_i32_bytes(by);
    lemma_i32_wide(by);
    assert(n6.gpr(new_reg) == product(w, val_a, val_b));
    assert(s6.same_values(none(), m, n6)) by {
        assert forall|g: GPR| g.valid() && s6.known_uses(none(), g) > 0 implies #[trigger] n6.gpr(g)
            == m.gpr(g) by {
            assert(n3.gpr(g) == m.gpr(g));
        }
    }
    lemma_owns_code(s5, s6, one(ValueLocation::Reg(new_reg)));
    lemma_push_result(s, s6, m, 2, ValueLocation::Reg(new_reg));
}

/// Multiplying the value `a` in hand in place by the value `b` in hand. The values below are
/// those of `s`.
proof fn lemma_mul_in_place(
    s: State,
    u: State,
    m: Machine,
    w: Width,
    a: ValueLocation,
    b: ValueLocation,
    src: Operand,
)
    requires
        s.at(m),
        w is D || w is Q,
        s.stack.len() >= 2,
        u.stack == s.stack.take(s.stack.len() - 2),
        u.depth == s.depth,
        u.code == s.code,
        u.owns(two(b, a)),
        u.into_temp_reg(Some(GPRType::Rq), a).0.ok,
        match b {
            ValueLocation::Reg(reg) => src == Operand::Gpr(reg),
            ValueLocation::Stack(o) => src == u.slot(o),
            _ => false,
        },
    ensures
        ({
            let (s3, reg) = u.into_temp_reg(Some(GPRType::Rq), a);
            let t = s3.emit(Insn::Imul { w, dst: reg.id(), src }).free_value(b).push(
                ValueLocation::Reg(reg),
            );
            &&& s.computes(t, m, 2, w, product(w, s.value_of(m, a), s.value_of(m, b)))
        }),
{
    broadcast use {lemma_ran_push, lemma_ran_nothing, lemma_uses_push};

    let val_a = s.value_of(m, a);
    let val_b = s.value_of(m, b);
    let (s3, reg) = u.into_temp_reg(Some(GPRType::Rq), a);
    lemma_into_temp_reg(u, m, s.code, one(b), Some(GPRType::Rq), a);
    let n3 = ran(m, s.code, s3.code);
    let r = ValueLocation::Reg(reg);
    assert(two(b, a)[0].valid());
    lemma_owns_swap(s3, none(), b, r);
    let s4 = s3.emit(Insn::Imul { w, dst: reg.id(), src });
    lemma_owns_code(s3, s4, two(r, b));
    lemma_owns_free(s4, one(r), b);
    let s5 = s4.free_value(b);
    let n5 = ran(m, s.code, s5.code);
    assert(s3.value_of(n3, b) == val_b) by {
        if b is Reg {
            assert(u.known_uses(one(b), b->Reg_0) > 0);
            assert(n3.gpr(b->Reg_0) == m.gpr(b->Reg_0));
        }
    }
    assert(n5.gpr(reg) == product(w, val_a, val_b));
    assert(s5.same_values(none(), m, n5)) by {
        assert forall|g: GPR| g.valid() && s5.known_uses(none(), g) > 0 implies #[trigger] n5.gpr(g)
            == m.gpr(g) by {
            assert(u.known_uses(one(b), g) > 0);
            assert(n3.gpr(g) == m.gpr(g));
        }
    }
    lemma_push_result(s, s5, m, 2, r);
}

/// `i32.mul` and `i64.mul` leave on the stack the product of the two values on top of it.
pub proof fn multiplication(s: State, m: Machine, w: Width)
    requires
        s.at(m),
        s.mul(w).ok,
        w is D || w is Q,
    ensures
        s.computes(s.mul(w), m, 2, w, product(w, s.top(m, 1), s.top(m, 0))),
{
    let n = s.stack.len() as int;
    let (s1, right) = s.pop();
    let (s2, left) = s1.pop();
    if right is Immediate && left is Immediate {
        lemma_mul_constants(s, m, w);
    } else {
        let (a, b) = order_operands(left, right);
        lemma_owns_pop(s, none());
        lemma_owns_pop(s1, one(right));
        lemma_owns_swap(s2, none(), right, left);
        assert(s2.stack =~= s.stack.take(n - 2));
        lemma_product_commutes(w, s.top(m, 1), s.top(m, 0));
        match b {
            ValueLocation::Immediate(imm) => {
                if a == left {
                    lemma_owns_forget(s2, one(left), right);
                } else {
                    lemma_owns_forget(s2, one(right), left);
                }
                lemma_mul_by_immediate(s, s2, m, w, a, imm);
            },
            ValueLocation::Reg(reg) => {
                let r = s2.into_temp_reg(Some(GPRType::Rq), a).1;
                lemma_mul_in_place(s, s2, m, w, a, b, Operand::Gpr(reg));
                assert(s.mul(w) == s2.into_temp_reg(Some(GPRType::Rq), a).0.emit(
                    Insn::Imul { w, dst: r.id(), src: Operand::Gpr(reg) },
                ).free_value(b).push(ValueLocation::Reg(r)));
            },
            ValueLocation::Stack(o) => {
                lemma_mul_in_place(s, s2, m, w, a, b, s2.slot(o));
            },
        }
    }
}

pub proof fn lemma_i32_wide(a: i32)
    ensures
        (a as u64) as u32 == a as u32,
        (a as i64) as u64 == a as u64,
{
    lemma_i32_views(a);
}

} // verus!
