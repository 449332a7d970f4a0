//! The operators and conversions that round. What the machine's arithmetic gives is not said; what
//! holds is that the generated code asks it for the right thing, of the right operands.

use vstd::prelude::*;

use crate::arith::{order_operands, BinOp};
use crate::bits::{lemma_u32_views, lemma_u64_views};
use crate::insn::{Insn, Operand, Precision, SseOp, Width};
use crate::laws::arith::{lemma_owns_code, lemma_push_folded};
use crate::laws::{lemma_push_result, none, one, two};
use crate::location::ValueLocation;
use crate::machine::{float_width, run, signed, trunc, Machine};
use crate::microwasm::{Ieee32, Ieee64, Value};
use crate::ownership::{
    lemma_owns_forget, lemma_owns_free, lemma_owns_pop, lemma_owns_reorder, lemma_owns_swap,
    lemma_uses_push, taken_is_unused,
};
use crate::registers::{rq, GPRType, RegId, GPR};
use crate::simulation::{
    copy_to_register, lemma_into_reg, lemma_into_temp_reg, lemma_ran_nothing, lemma_ran_push, ran,
};
use crate::state::State;

verus! {

/// No instruction changes what arithmetic gives.
pub proof fn lemma_same_floats(m: Machine, from: Seq<Insn>, to: Seq<Insn>)
    ensures
        ran(m, from, to).floats == m.floats,
{
    lemma_run_same_floats(m, to.skip(from.len() as int));
}

proof fn lemma_run_same_floats(m: Machine, code: Seq<Insn>)
    ensures
        run(m, code).floats == m.floats,
    decreases code.len(),
{
    if code.len() > 0 {
        lemma_run_same_floats(m, code.drop_last());
    }
}

/// What the machine's arithmetic gives for two numbers of this precision.
pub open spec fn combined(m: Machine, op: SseOp, prec: Precision, a: u64, b: u64) -> u64 {
    let w = float_width(prec);
    (m.floats.combined)(op, prec, trunc(w, a), trunc(w, b))
}

/// The operator of this precision.
pub open spec fn float_op(prec: Precision, op: SseOp) -> BinOp {
    match prec {
        Precision::Single => BinOp::F32(op),
        Precision::Double => BinOp::F64(op),
    }
}

proof fn lemma_low_half(old: u64, v: u64)
    by (bit_vector)
    ensures
        ((old & !0xffff_ffffu64) | ((v as u32) as u64)) as u32 == v as u32,
        ((v as u32) as u64) as u32 == v as u32,
{
}

/// The instruction itself.
proof fn lemma_sse_step(m: Machine, op: SseOp, prec: Precision, r: RegId, src: Operand)
    requires
        m.wf(),
        r < 16,
    ensures
        ({
            let n = m.step(Insn::Sse { op, prec, dst: r, src });
            let w = float_width(prec);
            &&& n == (Machine { rx: n.rx, ..m })
            &&& n.rx == m.rx.update(r as int, n.rx[r as int])
            &&& trunc(w, n.rx[r as int]) == trunc(
                w,
                combined(m, op, prec, m.rx[r as int], m.read(w, src)),
            )
        }),
{
    let w = float_width(prec);
    let v = combined(m, op, prec, m.rx[r as int], m.read(w, src));
    lemma_low_half(m.rx[r as int], v);
    lemma_low_half(m.rx[r as int], m.read(w, src));
    assert(trunc(w, m.read(w, src)) == m.read(w, src));
}

impl State {
    /// Whether the step from `self` to `t` left in the vector register `r` what arithmetic gives
    /// for it and the value at `right`, and changed nothing else that is in use.
    spec fn combines(
        self,
        t: State,
        m: Machine,
        from: Seq<Insn>,
        op: SseOp,
        prec: Precision,
        r: RegId,
        right: ValueLocation,
    ) -> bool {
        let before = ran(m, from, self.code);
        let n = ran(m, from, t.code);
        let w = float_width(prec);
        &&& t.reached(m, from)
        &&& t.owns(one(ValueLocation::Reg(GPR::Rx(r))))
        &&& t.stack == self.stack
        &&& t.depth == self.depth
        &&& t.same_values(none(), before, n)
        &&& trunc(w, n.rx[r as int]) == trunc(
            w,
            combined(m, op, prec, before.rx[r as int], self.value_of(before, right)),
        )
    }
}

proof fn lemma_read_value(s: State, m: Machine, w: Width, loc: ValueLocation, op: Operand)
    requires
        loc is Reg && op == Operand::Gpr(loc->Reg_0) || loc is Stack && op == s.slot(loc->Stack_0),
    ensures
        m.read(w, op) == trunc(w, s.value_of(m, loc)),
{
}

proof fn lemma_combine_register(
    s: State,
    m: Machine,
    from: Seq<Insn>,
    op: SseOp,
    prec: Precision,
    r: RegId,
    right: ValueLocation,
)
    requires
        s.reached(m, from),
        s.owns(two(ValueLocation::Reg(GPR::Rx(r)), right)),
        s.known_uses(none(), GPR::Rx(r)) == 0,
        s.apply(float_op(prec, op), r, right).ok,
        right is Reg,
    ensures
        s.combines(s.apply(float_op(prec, op), r, right), m, from, op, prec, r, right),
{
    broadcast use lemma_uses_push;

    let left = ValueLocation::Reg(GPR::Rx(r));
    let before = ran(m, from, s.code);
    let w = float_width(prec);
    assert(two(left, right)[0].valid());
    let (s1, reg) = s.into_reg(Some(GPRType::Rx), right);
    assert(s1.ok);
    lemma_into_reg(s, m, from, one(left), Some(GPRType::Rx), right);
    let insn = Insn::Sse { op, prec, dst: r, src: Operand::Gpr(reg) };
    assert(float_op(prec, op).insn(r, Operand::Gpr(reg)) == insn);
    let s2 = s1.emit(insn);
    lemma_ran_push(m, from, s1.code, insn);
    lemma_owns_code(s1, s2, two(left, ValueLocation::Reg(reg)));
    lemma_owns_free(s2, one(left), ValueLocation::Reg(reg));
    let n1 = ran(m, from, s1.code);
    assert(s.known_uses(one(left), GPR::Rx(r)) > 0);
    assert(n1.gpr(GPR::Rx(r)) == before.gpr(GPR::Rx(r)));
    lemma_sse_step(n1, op, prec, r, Operand::Gpr(reg));
    lemma_same_floats(m, from, s1.code);
    lemma_low_half(0, s.value_of(before, right));
    let n = ran(m, from, s2.code);
    assert forall|g: GPR| g.valid() && s.known_uses(none(), g) > 0 implies #[trigger] n.gpr(g)
        == before.gpr(g) by {
        assert(s.known_uses(one(left), g) > 0);
        assert(n1.gpr(g) == before.gpr(g));
    }
}

proof fn lemma_combine_slot(
    s: State,
    m: Machine,
    from: Seq<Insn>,
    op: SseOp,
    prec: Precision,
    r: RegId,
    right: ValueLocation,
)
    requires
        s.reached(m, from),
        s.owns(two(ValueLocation::Reg(GPR::Rx(r)), right)),
        s.known_uses(none(), GPR::Rx(r)) == 0,
        s.apply(float_op(prec, op), r, right).ok,
        right is Stack,
    ensures
        s.combines(s.apply(float_op(prec, op), r, right), m, from, op, prec, r, right),
{
    broadcast use lemma_uses_push;

    let left = ValueLocation::Reg(GPR::Rx(r));
    let before = ran(m, from, s.code);
    assert(two(left, right)[0].valid());
    let src = s.slot(right->Stack_0);
    let insn = Insn::Sse { op, prec, dst: r, src };
    assert(float_op(prec, op).insn(r, src) == insn);
    let t = s.emit(insn);
    lemma_ran_push(m, from, s.code, insn);
    lemma_owns_forget(s, one(left), right);
    lemma_owns_code(s, t, one(left));
    lemma_sse_step(before, op, prec, r, src);
    lemma_read_value(s, before, float_width(prec), right, src);
    lemma_same_floats(m, from, s.code);
    lemma_low_half(0, s.value_of(before, right));
}

proof fn lemma_combine_constant(
    s: State,
    m: Machine,
    from: Seq<Insn>,
    op: SseOp,
    prec: Precision,
    r: RegId,
    right: ValueLocation,
)
    requires
        s.reached(m, from),
        s.owns(two(ValueLocation::Reg(GPR::Rx(r)), right)),
        s.known_uses(none(), GPR::Rx(r)) == 0,
        s.apply(float_op(prec, op), r, right).ok,
        right is Immediate,
    ensures
        s.combines(s.apply(float_op(prec, op), r, right), m, from, op, prec, r, right),
{
    broadcast use lemma_uses_push;

    let left = ValueLocation::Reg(GPR::Rx(r));
    let before = ran(m, from, s.code);
    assert(two(left, right)[0].valid());
    let imm = right->Immediate_0;
    lemma_owns_forget(s, one(left), right);
    let (s1, scratch) = s.take(GPRType::Rx);
    let x = ValueLocation::Reg(scratch);
    let s2 = s1.immediate_to_reg(scratch, imm);
    assert(s2.ok && s1.ok);
    taken_is_unused(s, one(left), GPRType::Rx);
    let rsp = GPR::Rq(rq::RSP);
    assert(s1.regs.count(rsp) >= s1.known_uses(two(left, x), rsp));
    copy_to_register(s1, m, from, right, scratch);
    let insn = Insn::Sse { op, prec, dst: r, src: Operand::Gpr(scratch) };
    assert(float_op(prec, op).insn(r, Operand::Gpr(scratch)) == insn);
    let s3 = s2.emit(insn);
    lemma_ran_push(m, from, s2.code, insn);
    lemma_owns_code(s1, s3, two(left, x));
    lemma_owns_free(s3, one(left), x);
    let n2 = ran(m, from, s2.code);
    assert(s1.regs.count(GPR::Rx(r)) >= s1.known_uses(two(left, x), GPR::Rx(r)));
    assert(n2.gpr(GPR::Rx(r)) == before.gpr(GPR::Rx(r)));
    lemma_sse_step(n2, op, prec, r, Operand::Gpr(scratch));
    lemma_same_floats(m, from, s2.code);
    lemma_low_half(0, s.value_of(before, right));
    let n = ran(m, from, s3.code);
    assert forall|g: GPR| g.valid() && s.known_uses(none(), g) > 0 implies #[trigger] n.gpr(g)
        == before.gpr(g) by {
        assert(s1.regs.count(g) >= s1.known_uses(two(left, x), g));
        assert(n2.gpr(g) == before.gpr(g));
    }
}

proof fn lemma_combine(
    s: State,
    m: Machine,
    from: Seq<Insn>,
    op: SseOp,
    prec: Precision,
    r: RegId,
    right: ValueLocation,
)
    requires
        s.reached(m, from),
        s.owns(two(ValueLocation::Reg(GPR::Rx(r)), right)),
        s.known_uses(none(), GPR::Rx(r)) == 0,
        s.apply(float_op(prec, op), r, right).ok,
    ensures
        s.combines(s.apply(float_op(prec, op), r, right), m, from, op, prec, r, right),
{
    match right {
        ValueLocation::Reg(_) => lemma_combine_register(s, m, from, op, prec, r, right),
        ValueLocation::Stack(_) => lemma_combine_slot(s, m, from, op, prec, r, right),
        ValueLocation::Immediate(_) => lemma_combine_constant(s, m, from, op, prec, r, right),
    }
}

/// An operator on two values that are not both constants.
proof fn lemma_float_binop(s: State, m: Machine, op: SseOp, prec: Precision, folded: Value)
    requires
        s.at(m),
        s.binop(float_op(prec, op), folded).ok,
        !s.both_const(float_op(prec, op)),
    ensures
        ({
            let t = s.binop(float_op(prec, op), folded);
            let w = float_width(prec);
            ||| s.computes(t, m, 2, w, combined(m, op, prec, s.top(m, 1), s.top(m, 0)))
            ||| (op is Add || op is Mul) && s.computes(
                t,
                m,
                2,
                w,
                combined(m, op, prec, s.top(m, 0), s.top(m, 1)),
            )
        }),
{
    broadcast use {lemma_ran_nothing, lemma_uses_push};

    let bin = float_op(prec, op);
    let (s1, right) = s.pop();
    let (s2, left) = s1.pop();
    let (a, b) = if bin.commutes() {
        order_operands(left, right)
    } else {
        (left, right)
    };
    let (s3, reg) = s2.into_temp_reg(Some(GPRType::Rx), a);
    let s4 = s3.apply(bin, reg.id(), b);
    assert(s4.ok && s3.ok && s2.ok && s1.ok);
    lemma_owns_pop(s, none());
    lemma_owns_pop(s1, one(right));
    assert(s2.owns(two(right, left)));
    if a != left {
        lemma_owns_swap(s2, none(), right, left);
    }
    assert(s2.owns(two(b, a)));
    lemma_into_temp_reg(s2, m, s.code, one(b), Some(GPRType::Rx), a);
    let r = ValueLocation::Reg(reg);
    assert(reg == GPR::Rx(reg.id()));
    lemma_owns_swap(s3, none(), b, r);
    lemma_combine(s3, m, s.code, op, prec, reg.id(), b);
    let n3 = ran(m, s.code, s3.code);
    assert(s3.value_of(n3, b) == s.value_of(m, b)) by {
        assert(two(b, a)[0].valid());
        if b is Reg {
            assert(s2.known_uses(one(b), b->Reg_0) > 0);
            assert(n3.gpr(b->Reg_0) == m.gpr(b->Reg_0));
        }
    }
    let n4 = ran(m, s.code, s4.code);
    assert(s4.same_values(none(), m, n4)) by {
        assert forall|g: GPR| g.valid() && s4.known_uses(none(), g) > 0 implies #[trigger] n4.gpr(g)
            == m.gpr(g) by {
            assert(s2.known_uses(one(b), g) > 0);
            assert(n3.gpr(g) == m.gpr(g));
            assert(n4.gpr(g) == n3.gpr(g));
        }
    }
    assert(s4.stack =~= s.stack.take(s.stack.len() - 2));
    lemma_push_result(s, s4, m, 2, r);
}

impl State {
    /// Whether the step from `self` to `t` leaves on the stack what the machine's arithmetic gives
    /// for the two values on top of it, the lower one first. Sums and products may have them the
    /// other way round. Of two constants it leaves what it was told, without any code.
    pub open spec fn combined_f32(
        self,
        t: State,
        m: Machine,
        op: SseOp,
        folded: Option<Ieee32>,
    ) -> bool {
        let n = self.stack.len();
        if self.stack[n - 1].imm_f32() is Some && self.stack[n - 2].imm_f32() is Some {
            &&& folded is Some
            &&& self.computes(t, m, 2, Width::D, (folded->0).0 as u64)
            &&& t.code == self.code
        } else {
            ||| self.computes(
                t,
                m,
                2,
                Width::D,
                combined(m, op, Precision::Single, self.top(m, 1), self.top(m, 0)),
            )
            ||| (op is Add || op is Mul) && self.computes(
                t,
                m,
                2,
                Width::D,
                combined(m, op, Precision::Single, self.top(m, 0), self.top(m, 1)),
            )
        }
    }

    /// Whether that holds whatever machine runs the code.
    pub open spec fn combines_f32(self, t: State, op: SseOp, folded: Option<Ieee32>) -> bool {
        forall|m: Machine| #[trigger] self.at(m) ==> self.combined_f32(t, m, op, folded)
    }
}

/// `f32.add`, `f32.sub`, `f32.mul` and `f32.div` leave on the stack what the machine's arithmetic
/// gives for the two values on top of it, the lower one first. Sums and products may have them the
/// other way round. Of two constants they leave what they were told.
pub proof fn f32_operators(s: State, m: Machine, op: SseOp, folded: Option<Ieee32>)
    requires
        s.at(m),
        s.binop_f32(op, folded).ok,
    ensures
        s.combined_f32(s.binop_f32(op, folded), m, op, folded),
{
    let n = s.stack.len() as int;
    let s0 = s.need(s.both_const(BinOp::F32(op)) ==> folded is Some);
    assert(s0.ok ==> s0 == s);
    assert(s0.ok);
    let val = Value::F32(folded->0);
    assert(n >= 2);
    if s.both_const(BinOp::F32(op)) {
        assert(s.stack.drop_last().drop_last() =~= s.stack.take(n - 2));
        lemma_push_folded(s, m, 2, s.binop_f32(op, folded), val);
    } else {
        lemma_float_binop(s, m, op, Precision::Single, val);
    }
}

pub proof fn lemma_combines_f32(s: State, op: SseOp, folded: Option<Ieee32>)
    requires
        s.binop_f32(op, folded).ok,
    ensures
        s.combines_f32(s.binop_f32(op, folded), op, folded),
{
    assert forall|m: Machine| #[trigger] s.at(m) implies s.combined_f32(
        s.binop_f32(op, folded),
        m,
        op,
        folded,
    ) by {
        f32_operators(s, m, op, folded);
    }
}

impl State {
    /// Whether the step from `self` to `t` leaves on the stack what the machine's arithmetic gives
    /// for the two values on top of it, the lower one first. Sums and products may have them the
    /// other way round. Of two constants it leaves what it was told, without any code.
    pub open spec fn combined_f64(
        self,
        t: State,
        m: Machine,
        op: SseOp,
        folded: Option<Ieee64>,
    ) -> bool {
        let n = self.stack.len();
        if self.stack[n - 1].imm_f64() is Some && self.stack[n - 2].imm_f64() is Some {
            &&& folded is Some
            &&& self.computes(t, m, 2, Width::Q, (folded->0).0)
            &&& t.code == self.code
        } else {
            ||| self.computes(
                t,
                m,
                2,
                Width::Q,
                combined(m, op, Precision::Double, self.top(m, 1), self.top(m, 0)),
            )
            ||| (op is Add || op is Mul) && self.computes(
                t,
                m,
                2,
                Width::Q,
                combined(m, op, Precision::Double, self.top(m, 0), self.top(m, 1)),
            )
        }
    }

    /// Whether that holds whatever machine runs the code.
    pub open spec fn combines_f64(self, t: State, op: SseOp, folded: Option<Ieee64>) -> bool {
        forall|m: Machine| #[trigger] self.at(m) ==> self.combined_f64(t, m, op, folded)
    }
}

/// `f64.add`, `f64.sub`, `f64.mul` and `f64.div` leave on the stack what the machine's arithmetic
/// gives for the two values on top of it, the lower one first. Sums and products may have them the
/// other way round. Of two constants they leave what they were told.
pub proof fn f64_operators(s: State, m: Machine, op: SseOp, folded: Option<Ieee64>)
    requires
        s.at(m),
        s.binop_f64(op, folded).ok,
    ensures
        s.combined_f64(s.binop_f64(op, folded), m, op, folded),
{
    let n = s.stack.len() as int;
    let s0 = s.need(s.both_const(BinOp::F64(op)) ==> folded is Some);
    assert(s0.ok ==> s0 == s);
    assert(s0.ok);
    let val = Value::F64(folded->0);
    assert(n >= 2);
    if s.both_const(BinOp::F64(op)) {
        assert(s.stack.drop_last().drop_last() =~= s.stack.take(n - 2));
        lemma_push_folded(s, m, 2, s.binop_f64(op, folded), val);
        lemma_u64_views((folded->0).0);
    } else {
        lemma_float_binop(s, m, op, Precision::Double, val);
    }
}

pub proof fn lemma_combines_f64(s: State, op: SseOp, folded: Option<Ieee64>)
    requires
        s.binop_f64(op, folded).ok,
    ensures
        s.combines_f64(s.binop_f64(op, folded), op, folded),
{
    assert forall|m: Machine| #[trigger] s.at(m) implies s.combined_f64(
        s.binop_f64(op, folded),
        m,
        op,
        folded,
    ) by {
        f64_operators(s, m, op, folded);
    }
}

/// The conversion of an integer: the instruction itself.
proof fn lemma_convert_step(m: Machine, w: Width, r: RegId, src: Operand, v: u64)
    requires
        m.wf(),
        r < 16,
        w is D || w is Q,
        m.read(w, src) == trunc(w, v),
    ensures
        ({
            let n = m.step(Insn::Cvtsi2ss { w, dst: r, src });
            &&& n == (Machine { rx: n.rx, ..m })
            &&& n.rx == m.rx.update(r as int, n.rx[r as int])
            &&& trunc(Width::D, n.rx[r as int]) == (m.floats.converted)(signed(w, v)) as u64
        }),
{
    lemma_u64_views(v);
    lemma_low_half(m.rx[r as int], (m.floats.converted)(signed(w, v)) as u64);
}

/// The result of a conversion is in a register that nothing else uses, and is pushed.
proof fn lemma_push_converted(
    s: State,
    u: State,
    m: Machine,
    held: Seq<ValueLocation>,
    ty: GPRType,
    insn: Insn,
    t: State,
)
    requires
        s.at(m),
        s.stack.len() > 0,
        u.reached(m, s.code),
        u.owns(held),
        held.len() <= 1,
        u.stack == s.stack.take(s.stack.len() - 1),
        u.depth == s.depth,
        u.take(ty).0.ok,
        u.same_values(none(), m, ran(m, s.code, u.code)),
        ({
            let (v, temp) = u.take(ty);
            let before = ran(m, s.code, u.code);
            let n = before.step(insn);
            let e = v.emit(insn);
            &&& n == before.with_gpr(temp, n.gpr(temp))
            &&& t == (if held.len() == 0 {
                e
            } else {
                e.free_value(held[0])
            }).push(ValueLocation::Reg(temp))
        }),
    ensures
        ({
            let before = ran(m, s.code, u.code);
            let temp = u.take(ty).1;
            s.computes(t, m, 1, Width::Q, before.step(insn).gpr(temp))
        }),
{
    broadcast use lemma_uses_push;

    let (v, temp) = u.take(ty);
    let x = ValueLocation::Reg(temp);
    taken_is_unused(u, held, ty);
    let e = v.emit(insn);
    let before = ran(m, s.code, u.code);
    let n = ran(m, s.code, e.code);
    lemma_ran_push(m, s.code, u.code, insn);
    lemma_owns_code(v, e, held.push(x));
    let f = if held.len() == 0 {
        assert(held.push(x) =~= one(x));
        e
    } else {
        assert(held =~= one(held[0]));
        lemma_owns_reorder(e, held.push(x), two(x, held[0]));
        lemma_owns_free(e, one(x), held[0]);
        e.free_value(held[0])
    };
    assert forall|g: GPR| g.valid() && f.known_uses(none(), g) > 0 implies #[trigger] n.gpr(g)
        == m.gpr(g) by {
        assert(u.known_uses(none(), g) > 0);
        assert(before.gpr(g) == m.gpr(g));
    }
    lemma_push_result(s, f, m, 1, x);
}

/// Bringing the value on top of the stack into a register before it is converted.
proof fn lemma_operand_ready(s: State, m: Machine, ty: GPRType)
    requires
        s.at(m),
        s.stack.len() > 0,
        s.pop().0.into_reg(Some(ty), s.pop().1).0.ok,
    ensures
        ({
            let (s1, val) = s.pop();
            let (s2, reg) = s1.into_reg(Some(ty), val);
            let n = ran(m, s.code, s2.code);
            &&& s2.reached(m, s.code)
            &&& s2.owns(one(ValueLocation::Reg(reg)))
            &&& s2.stack == s.stack.take(s.stack.len() - 1)
            &&& s2.depth == s.depth
            &&& reg.valid()
            &&& reg.type_() == ty
            &&& reg != GPR::Rq(rq::RSP)
            &&& n.gpr(reg) == s.top(m, 0)
            &&& n.floats == m.floats
            &&& s2.same_values(none(), m, n)
        }),
{
    broadcast use {lemma_ran_nothing, lemma_uses_push};

    let (s1, val) = s.pop();
    let (s2, reg) = s1.into_reg(Some(ty), val);
    lemma_owns_pop(s, none());
    assert(s1.stack =~= s.stack.take(s.stack.len() - 1));
    lemma_into_reg(s1, m, s.code, none(), Some(ty), val);
    assert(one(ValueLocation::Reg(reg))[0].valid());
    lemma_same_floats(m, s.code, s2.code);
}

/// `f32.convert_i32_s` leaves on the stack the `f32` that the machine converts the signed number
/// in the lower half of the value to, whatever is in its upper half. Of a constant it leaves what
/// it was told.
pub proof fn conversion_with_sign(s: State, m: Machine, folded: Option<Ieee32>)
    requires
        s.at(m),
        s.convert_i32_s(folded).ok,
    ensures
        s.computes(
            s.convert_i32_s(folded),
            m,
            1,
            Width::D,
            if s.stack.last() is Immediate {
                (folded->0).0 as u64
            } else {
                (m.floats.converted)(s.top(m, 0) as i32 as int) as u64
            },
        ),
{
    broadcast use {lemma_ran_nothing, lemma_uses_push};

    let (s1, val) = s.pop();
    let t = s.convert_i32_s(folded);
    assert(s1.ok);
    assert(s1.stack =~= s.stack.take(s.stack.len() - 1));
    match val {
        ValueLocation::Immediate(_) => {
            lemma_push_folded(s, m, 1, t, Value::F32(folded->0));
        },
        ValueLocation::Stack(o) => {
            lemma_owns_pop(s, none());
            lemma_owns_forget(s1, none(), val);
            let (s2, temp) = s1.take(GPRType::Rx);
            taken_is_unused(s1, none(), GPRType::Rx);
            let insn = Insn::Cvtsi2ss { w: Width::D, dst: temp.id(), src: s1.slot(o) };
            lemma_read_value(s1, m, Width::D, val, s1.slot(o));
            lemma_convert_step(m, Width::D, temp.id(), s1.slot(o), s.top(m, 0));
            lemma_push_converted(s, s1, m, none(), GPRType::Rx, insn, t);
        },
        ValueLocation::Reg(_) => {
            let (s2, reg) = s1.into_reg(Some(GPRType::Rq), val);
            let (s3, temp) = s2.take(GPRType::Rx);
            assert(s2.ok && s3.ok);
            lemma_operand_ready(s, m, GPRType::Rq);
            let held = one(ValueLocation::Reg(reg));
            taken_is_unused(s2, held, GPRType::Rx);
            let insn = Insn::Cvtsi2ss { w: Width::D, dst: temp.id(), src: Operand::Gpr(reg) };
            let n2 = ran(m, s.code, s2.code);
            lemma_convert_step(n2, Width::D, temp.id(), Operand::Gpr(reg), s.top(m, 0));
            lemma_push_converted(s, s2, m, held, GPRType::Rx, insn, t);
        },
    }
}

/// `f32.convert_i32_u` leaves on the stack the `f32` that the machine converts the value to, of
/// which all 64 bits count. That is the unsigned number in the lower half if the upper half is
/// clear. Of a constant it leaves what it was told.
pub proof fn conversion_without_sign(s: State, m: Machine, folded: Option<Ieee32>)
    requires
        s.at(m),
        s.convert_i32_u(folded).ok,
    ensures
        s.computes(
            s.convert_i32_u(folded),
            m,
            1,
            Width::D,
            if s.stack.last() is Immediate {
                (folded->0).0 as u64
            } else {
                (m.floats.converted)(s.top(m, 0) as i64 as int) as u64
            },
        ),
        s.top(m, 0) <= u32::MAX ==> s.top(m, 0) as i64 == s.top(m, 0) as u32,
{
    broadcast use {lemma_ran_nothing, lemma_uses_push};

    let (s1, val) = s.pop();
    let t = s.convert_i32_u(folded);
    assert(s1.ok);
    assert(s1.stack =~= s.stack.take(s.stack.len() - 1));
    match val {
        ValueLocation::Immediate(_) => {
            lemma_push_folded(s, m, 1, t, Value::F32(folded->0));
        },
        _ => {
            let (s2, reg) = s1.into_reg(Some(GPRType::Rq), val);
            let mov = Insn::Mov { w: Width::Q, dst: Operand::Gpr(reg), src: Operand::Gpr(reg) };
            let u = s2.emit(mov);
            let (s3, temp) = s2.take(GPRType::Rx);
            assert(s2.ok && s3.ok);
            lemma_operand_ready(s, m, GPRType::Rq);
            let held = one(ValueLocation::Reg(reg));
            taken_is_unused(s2, held, GPRType::Rx);
            let n2 = ran(m, s.code, s2.code);
            lemma_ran_push(m, s.code, s2.code, mov);
            assert(n2.rq.update(reg.id() as int, n2.gpr(reg)) =~= n2.rq);
            assert(ran(m, s.code, u.code) == n2);
            lemma_owns_code(s2, u, held);
            let insn = Insn::Cvtsi2ss { w: Width::Q, dst: temp.id(), src: Operand::Gpr(reg) };
            lemma_convert_step(n2, Width::Q, temp.id(), Operand::Gpr(reg), s.top(m, 0));
            lemma_push_converted(s, u, m, held, GPRType::Rx, insn, t);
        },
    }
}

/// `i32.trunc_f32` leaves on the stack the integer that the machine truncates the `f32` to. A
/// constant keeps its bits.
pub proof fn truncation(s: State, m: Machine)
    requires
        s.at(m),
        s.truncate_f32().ok,
    ensures
        s.computes(
            s.truncate_f32(),
            m,
            1,
            Width::D,
            if s.stack.last() is Immediate {
                s.top(m, 0)
            } else {
                (m.floats.truncated)(s.top(m, 0) as u32) as u64
            },
        ),
{
    broadcast use {lemma_ran_nothing, lemma_uses_push};

    let (s1, val) = s.pop();
    let t = s.truncate_f32();
    assert(s1.ok);
    assert(s1.stack =~= s.stack.take(s.stack.len() - 1));
    match val {
        ValueLocation::Immediate(imm) => {
            let bits = (imm.as_f32()->0).0;
            lemma_push_folded(s, m, 1, t, Value::I32(bits as i32));
            lemma_u32_views(bits);
        },
        ValueLocation::Stack(o) => {
            lemma_owns_pop(s, none());
            lemma_owns_forget(s1, none(), val);
            let (s2, temp) = s1.take(GPRType::Rq);
            taken_is_unused(s1, none(), GPRType::Rq);
            let insn = Insn::Cvttss2si { dst: temp.id(), src: s1.slot(o) };
            lemma_read_value(s1, m, Width::D, val, s1.slot(o));
            lemma_low_half(0, s.top(m, 0));
            lemma_push_converted(s, s1, m, none(), GPRType::Rq, insn, t);
        },
        ValueLocation::Reg(_) => {
            let (s2, reg) = s1.into_reg(Some(GPRType::Rx), val);
            let (s3, temp) = s2.take(GPRType::Rq);
            assert(s2.ok && s3.ok);
            lemma_operand_ready(s, m, GPRType::Rx);
            let held = one(ValueLocation::Reg(reg));
            taken_is_unused(s2, held, GPRType::Rq);
            let insn = Insn::Cvttss2si { dst: temp.id(), src: Operand::Gpr(reg) };
            lemma_low_half(0, s.top(m, 0));
            lemma_push_converted(s, s2, m, held, GPRType::Rq, insn, t);
        },
    }
}

impl State {
    /// Whether the step from `self` to `t`, whatever machine runs its code, replaces the value on
    /// top of the stack by the `f32` that the machine converts the signed number in its lower half
    /// to, or by what it was told if it is a constant.
    pub open spec fn converts_signed(self, t: State, folded: Option<Ieee32>) -> bool {
        forall|m: Machine| #[trigger]
            self.at(m) ==> self.computes(
                t,
                m,
                1,
                Width::D,
                if self.stack.last() is Immediate {
                    (folded->0).0 as u64
                } else {
                    (m.floats.converted)(self.top(m, 0) as i32 as int) as u64
                },
            )
    }

    /// The same for all 64 bits of the value.
    pub open spec fn converts_whole(self, t: State, folded: Option<Ieee32>) -> bool {
        forall|m: Machine| #[trigger]
            self.at(m) ==> self.computes(
                t,
                m,
                1,
                Width::D,
                if self.stack.last() is Immediate {
                    (folded->0).0 as u64
                } else {
                    (m.floats.converted)(self.top(m, 0) as i64 as int) as u64
                },
            )
    }

    /// Whether the step from `self` to `t`, whatever machine runs its code, replaces the `f32` on
    /// top of the stack by the integer that the machine truncates it to, or by its bits if it is a
    /// constant.
    pub open spec fn truncates(self, t: State) -> bool {
        forall|m: Machine| #[trigger]
            self.at(m) ==> self.computes(
                t,
                m,
                1,
                Width::D,
                if self.stack.last() is Immediate {
                    self.top(m, 0)
                } else {
                    (m.floats.truncated)(self.top(m, 0) as u32) as u64
                },
            )
    }
}

pub proof fn lemma_converts(s: State, folded: Option<Ieee32>)
    ensures
        s.convert_i32_s(folded).ok ==> s.converts_signed(s.convert_i32_s(folded), folded),
        s.convert_i32_u(folded).ok ==> s.converts_whole(s.convert_i32_u(folded), folded),
        s.truncate_f32().ok ==> s.truncates(s.truncate_f32()),
{
    if s.convert_i32_s(folded).ok {
        assert forall|m: Machine| #[trigger] s.at(m) implies s.computes(
            s.convert_i32_s(folded),
            m,
            1,
            Width::D,
            if s.stack.last() is Immediate {
                (folded->0).0 as u64
            } else {
                (m.floats.converted)(s.top(m, 0) as i32 as int) as u64
            },
        ) by {
            conversion_with_sign(s, m, folded);
        }
    }
    if s.convert_i32_u(folded).ok {
        assert forall|m: Machine| #[trigger] s.at(m) implies s.computes(
            s.convert_i32_u(folded),
            m,
            1,
            Width::D,
            if s.stack.last() is Immediate {
                (folded->0).0 as u64
            } else {
                (m.floats.converted)(s.top(m, 0) as i64 as int) as u64
            },
        ) by {
            conversion_without_sign(s, m, folded);
        }
    }
    if s.truncate_f32().ok {
        assert forall|m: Machine| #[trigger] s.at(m) implies s.computes(
            s.truncate_f32(),
            m,
            1,
            Width::D,
            if s.stack.last() is Immediate {
                s.top(m, 0)
            } else {
                (m.floats.truncated)(s.top(m, 0) as u32) as u64
            },
        ) by {
            truncation(s, m);
        }
    }
}

} // verus!
