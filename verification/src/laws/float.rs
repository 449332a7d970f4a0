//! Floating-point numbers. Their arithmetic is the machine's; what holds of the generated code is
//! that signs are changed and cleared as they should be, and that the accounts of registers stay
//! in order.

use vstd::prelude::*;

use crate::arith::{order_operands, BinOp};
use crate::branches::{shared_code, SharedLabel};
use crate::compare::{both_float, fold_f32, fold_f64};
use crate::float::{SIGN_F32, SIGN_F64};
use crate::insn::{Cond, Insn, Operand, Precision, Width};
use crate::laws::arith::{lemma_owns_code, lemma_push_folded};
use crate::laws::{lemma_push_result, none, one, two};
use crate::location::ValueLocation;
use crate::machine::Machine;
use crate::microwasm::{Ieee32, Ieee64, Value};
use crate::ownership::{
    lemma_owns_forget, lemma_owns_free, lemma_owns_hold, lemma_owns_pop, lemma_owns_push,
    lemma_owns_reorder, lemma_uses_push, taken_is_unused,
};
use crate::registers::{rq, GPRType, GPR};
use crate::simulation::{
    copy_to_register, lemma_into_reg, lemma_into_temp_reg, lemma_ran_nothing, lemma_ran_push, ran,
};
use crate::state::State;

verus! {

/// The number that two words of data make.
pub open spec fn words(low: i32, high: i32) -> u64 {
    (low as u32 as u64) | (high as u32 as u64) << 32u64
}

/// The lower half of the constant that `code` spells out.
pub open spec fn constant_of(code: Seq<Insn>) -> u64 {
    match (code[0], code[1]) {
        (Insn::Dword(low), Insn::Dword(high)) => words(low, high),
        (Insn::Qword(word), _) => word as u64,
        _ => 0,
    }
}

/// The mask that stands at a shared label.
pub open spec fn mask(which: SharedLabel) -> u64 {
    constant_of(shared_code(which))
}

pub proof fn lemma_masks()
    ensures
        mask(SharedLabel::NegF32) == SIGN_F32,
        mask(SharedLabel::NegF64) == SIGN_F64,
        mask(SharedLabel::AbsF32) == 0x7fff_ffff_7fff_ffff,
        mask(SharedLabel::AbsF64) == 0x7fff_ffff_ffff_ffff,
{
    assert(((-0x8000_0000i32) as u32 as u64) | ((0i32 as u32) as u64) << 32u64 == 0x8000_0000u64
        && ((0i32 as u32) as u64) | ((-0x8000_0000i32) as u32 as u64) << 32u64
        == 0x8000_0000_0000_0000u64 && ((0x7fff_ffffi32 as u32) as u64) | ((
    0x7fff_ffffi32 as u32) as u64) << 32u64 == 0x7fff_ffff_7fff_ffffu64 && (
    0x7fff_ffff_ffff_ffffi64) as u64 == 0x7fff_ffff_ffff_ffffu64) by (bit_vector);
}

proof fn lemma_signs(v: u64, x: u32)
    by (bit_vector)
    ensures
        (v ^ 0x8000_0000u64) as u32 == (v as u32) ^ 0x8000_0000u32,
        (v & 0x7fff_ffff_7fff_ffffu64) as u32 == (v as u32) & !0x8000_0000u32,
        v & 0x7fff_ffff_ffff_ffffu64 == v & !0x8000_0000_0000_0000u64,
        ((x as i64) as u64) as u32 == x,
        (v as i64) as u64 == v,
        (x ^ 0x8000_0000u32) ^ 0x8000_0000u32 == x,
        (x ^ 0x8000_0000u32) & !0x8000_0000u32 == x & !0x8000_0000u32,
        (v ^ 0x8000_0000_0000_0000u64) ^ 0x8000_0000_0000_0000u64 == v,
        (v ^ 0x8000_0000_0000_0000u64) & !0x8000_0000_0000_0000u64 == v
            & !0x8000_0000_0000_0000u64,
{
}

/// Changing the sign twice changes nothing, and the sign does not matter to the absolute value.
pub proof fn sign_twice(x: u32, v: u64)
    ensures
        (x ^ SIGN_F32) ^ SIGN_F32 == x,
        (x ^ SIGN_F32) & !SIGN_F32 == x & !SIGN_F32,
        (v ^ SIGN_F64) ^ SIGN_F64 == v,
        (v ^ SIGN_F64) & !SIGN_F64 == v & !SIGN_F64,
{
    lemma_signs(v, x);
}

/// An operation on the vector register that the top of the stack is brought to.
proof fn lemma_masked(s: State, m: Machine, which: SharedLabel, insn: Insn, xor: bool)
    requires
        s.at(m),
        s.stack.len() > 0,
        ({
            let (s1, val) = s.pop();
            let (s2, reg) = s1.into_temp_reg(Some(GPRType::Rx), val);
            let (s3, label) = s2.shared_label(which);
            &&& s2.ok
            &&& (m.consts)(label) == mask(which)
            &&& if xor {
                insn is XorConst && insn->XorConst_dst == reg.id() && insn->XorConst_label == label
            } else {
                insn == (Insn::AndConst { dst: reg.id(), label })
            }
        }),
    ensures
        ({
            let (s1, val) = s.pop();
            let (s2, reg) = s1.into_temp_reg(Some(GPRType::Rx), val);
            let (s3, label) = s2.shared_label(which);
            s.computes(
                s3.emit(insn).push(ValueLocation::Reg(reg)),
                m,
                1,
                Width::Q,
                if xor {
                    s.top(m, 0) ^ mask(which)
                } else {
                    s.top(m, 0) & mask(which)
                },
            )
        }),
{
    broadcast use {lemma_ran_push, lemma_ran_nothing, lemma_uses_push};

    let (s1, val) = s.pop();
    let (s2, reg) = s1.into_temp_reg(Some(GPRType::Rx), val);
    let (s3, label) = s2.shared_label(which);
    let r = ValueLocation::Reg(reg);
    lemma_owns_pop(s, none());
    assert(s1.stack =~= s.stack.take(s.stack.len() - 1));
    lemma_into_temp_reg(s1, m, s.code, none(), Some(GPRType::Rx), val);
    let n2 = ran(m, s.code, s2.code);
    lemma_consts(s1, m, s.code, val);
    let s4 = s3.emit(insn);
    lemma_owns_code(s2, s4, one(r));
    let n4 = ran(m, s.code, s4.code);
    assert forall|g: GPR| g.valid() && s4.known_uses(none(), g) > 0 implies #[trigger] n4.gpr(g)
        == m.gpr(g) by {
        assert(s1.known_uses(none(), g) > 0);
        assert(n2.gpr(g) == m.gpr(g));
    }
    lemma_push_result(s, s4, m, 1, r);
}

/// Bringing a value into a register changes no constants.
proof fn lemma_consts(s: State, m: Machine, from: Seq<Insn>, val: ValueLocation)
    requires
        from.len() <= s.code.len(),
    ensures
        ran(m, from, s.into_temp_reg(Some(GPRType::Rx), val).0.code).consts == ran(
            m,
            from,
            s.code,
        ).consts,
{
    broadcast use lemma_ran_push;

}

/// `f32.neg` leaves on the stack the value with its sign changed, if the constant at the shared
/// label is the one that the epilogue puts there.
pub proof fn negation_f32(s: State, m: Machine)
    requires
        s.at(m),
        s.neg_f32().ok,
        ({
            let (s1, val) = s.pop();
            let (s2, reg) = s1.into_temp_reg(Some(GPRType::Rx), val);
            (m.consts)(s2.shared_label(SharedLabel::NegF32).1) == mask(SharedLabel::NegF32)
        }),
    ensures
        s.computes(s.neg_f32(), m, 1, Width::D, (s.top(m, 0) as u32 ^ SIGN_F32) as u64),
{
    let (s1, val) = s.pop();
    let v = s.top(m, 0);
    match val.imm_f32() {
        Some(i) => {
            lemma_signs(v, i.0);
            assert(s1.stack =~= s.stack.take(s.stack.len() - 1));
            lemma_push_folded(s, m, 1, s.neg_f32(), Value::F32(Ieee32(i.0 ^ SIGN_F32)));
            lemma_signs(v, i.0 ^ SIGN_F32);
        },
        None => {
            let (s2, reg) = s1.into_temp_reg(Some(GPRType::Rx), val);
            let (s3, label) = s2.shared_label(SharedLabel::NegF32);
            let insn = Insn::XorConst { prec: Precision::Single, dst: reg.id(), label };
            assert(s2.ok);
            lemma_masked(s, m, SharedLabel::NegF32, insn, true);
            lemma_masks();
            lemma_signs(v, 0);
        },
    }
}

/// `f64.neg` leaves on the stack the value with its sign changed, if the constant at the shared
/// label is the one that the epilogue puts there.
pub proof fn negation_f64(s: State, m: Machine)
    requires
        s.at(m),
        s.neg_f64().ok,
        ({
            let (s1, val) = s.pop();
            let (s2, reg) = s1.into_temp_reg(Some(GPRType::Rx), val);
            (m.consts)(s2.shared_label(SharedLabel::NegF64).1) == mask(SharedLabel::NegF64)
        }),
    ensures
        s.computes(s.neg_f64(), m, 1, Width::Q, s.top(m, 0) ^ SIGN_F64),
{
    let (s1, val) = s.pop();
    let v = s.top(m, 0);
    match val.imm_f64() {
        Some(i) => {
            lemma_signs(i.0, 0);
            assert(s1.stack =~= s.stack.take(s.stack.len() - 1));
            lemma_push_folded(s, m, 1, s.neg_f64(), Value::F64(Ieee64(i.0 ^ SIGN_F64)));
            lemma_signs(i.0 ^ SIGN_F64, 0);
        },
        None => {
            let (s2, reg) = s1.into_temp_reg(Some(GPRType::Rx), val);
            let (s3, label) = s2.shared_label(SharedLabel::NegF64);
            let insn = Insn::XorConst { prec: Precision::Double, dst: reg.id(), label };
            assert(s2.ok);
            lemma_masked(s, m, SharedLabel::NegF64, insn, true);
            lemma_masks();
        },
    }
}

/// `f32.abs` leaves on the stack the value without its sign, if the constant at the shared label
/// is the one that the epilogue puts there.
pub proof fn absolute_f32(s: State, m: Machine)
    requires
        s.at(m),
        s.abs_f32().ok,
        ({
            let (s1, val) = s.pop();
            let (s2, reg) = s1.into_temp_reg(Some(GPRType::Rx), val);
            (m.consts)(s2.shared_label(SharedLabel::AbsF32).1) == mask(SharedLabel::AbsF32)
        }),
    ensures
        s.computes(s.abs_f32(), m, 1, Width::D, (s.top(m, 0) as u32 & !SIGN_F32) as u64),
{
    let (s1, val) = s.pop();
    let v = s.top(m, 0);
    match val.imm_f32() {
        Some(i) => {
            lemma_signs(v, i.0);
            assert(s1.stack =~= s.stack.take(s.stack.len() - 1));
            lemma_push_folded(s, m, 1, s.abs_f32(), Value::F32(Ieee32(i.0 & !SIGN_F32)));
            lemma_signs(v, i.0 & !SIGN_F32);
        },
        None => {
            let (s2, reg) = s1.into_temp_reg(Some(GPRType::Rx), val);
            let (s3, label) = s2.shared_label(SharedLabel::AbsF32);
            let insn = Insn::AndConst { dst: reg.id(), label };
            assert(s2.ok);
            lemma_masked(s, m, SharedLabel::AbsF32, insn, false);
            lemma_masks();
            lemma_signs(v, 0);
        },
    }
}

/// `f64.abs` leaves on the stack the value without its sign, if the constant at the shared label
/// is the one that the epilogue puts there.
pub proof fn absolute_f64(s: State, m: Machine)
    requires
        s.at(m),
        s.abs_f64().ok,
        ({
            let (s1, val) = s.pop();
            let (s2, reg) = s1.into_temp_reg(Some(GPRType::Rx), val);
            (m.consts)(s2.shared_label(SharedLabel::AbsF64).1) == mask(SharedLabel::AbsF64)
        }),
    ensures
        s.computes(s.abs_f64(), m, 1, Width::Q, s.top(m, 0) & !SIGN_F64),
{
    let (s1, val) = s.pop();
    let v = s.top(m, 0);
    match val.imm_f64() {
        Some(i) => {
            lemma_signs(i.0, 0);
            assert(s1.stack =~= s.stack.take(s.stack.len() - 1));
            lemma_push_folded(s, m, 1, s.abs_f64(), Value::F64(Ieee64(i.0 & !SIGN_F64)));
            lemma_signs(i.0 & !SIGN_F64, 0);
        },
        None => {
            let (s2, reg) = s1.into_temp_reg(Some(GPRType::Rx), val);
            let (s3, label) = s2.shared_label(SharedLabel::AbsF64);
            let insn = Insn::AndConst { dst: reg.id(), label };
            assert(s2.ok);
            lemma_masked(s, m, SharedLabel::AbsF64, insn, false);
            lemma_masks();
            lemma_signs(v, 0);
        },
    }
}

impl State {
    /// Whether the machine has at the shared label the constant that the epilogue puts there, once
    /// the value on top of the stack is in a vector register.
    pub open spec fn has_mask(self, m: Machine, which: SharedLabel) -> bool {
        let (s1, val) = self.pop();
        let (s2, reg) = s1.into_temp_reg(Some(GPRType::Rx), val);
        (m.consts)(s2.shared_label(which).1) == mask(which)
    }

    /// Whether the step from `self` to `t` changes the sign of the number on top of the stack,
    /// whatever machine with the constant for that runs its code.
    pub open spec fn negates(self, t: State, prec: Precision) -> bool {
        match prec {
            Precision::Single => forall|m: Machine| #[trigger]
                self.at(m) && self.has_mask(m, SharedLabel::NegF32) ==> self.computes(
                    t,
                    m,
                    1,
                    Width::D,
                    (self.top(m, 0) as u32 ^ 0x8000_0000u32) as u64,
                ),
            Precision::Double => forall|m: Machine| #[trigger]
                self.at(m) && self.has_mask(m, SharedLabel::NegF64) ==> self.computes(
                    t,
                    m,
                    1,
                    Width::Q,
                    self.top(m, 0) ^ 0x8000_0000_0000_0000u64,
                ),
        }
    }

    /// The same for clearing the sign.
    pub open spec fn clears_sign(self, t: State, prec: Precision) -> bool {
        match prec {
            Precision::Single => forall|m: Machine| #[trigger]
                self.at(m) && self.has_mask(m, SharedLabel::AbsF32) ==> self.computes(
                    t,
                    m,
                    1,
                    Width::D,
                    (self.top(m, 0) as u32 & 0x7fff_ffffu32) as u64,
                ),
            Precision::Double => forall|m: Machine| #[trigger]
                self.at(m) && self.has_mask(m, SharedLabel::AbsF64) ==> self.computes(
                    t,
                    m,
                    1,
                    Width::Q,
                    self.top(m, 0) & 0x7fff_ffff_ffff_ffffu64,
                ),
        }
    }
}

pub proof fn lemma_negates(s: State)
    ensures
        s.neg_f32().ok ==> s.negates(s.neg_f32(), Precision::Single),
        s.neg_f64().ok ==> s.negates(s.neg_f64(), Precision::Double),
{
    if s.neg_f32().ok {
        assert forall|m: Machine| #[trigger] s.at(m) && s.has_mask(m, SharedLabel::NegF32) implies
            s.computes(
            s.neg_f32(),
            m,
            1,
            Width::D,
            (s.top(m, 0) as u32 ^ 0x8000_0000u32) as u64,
        ) by {
            negation_f32(s, m);
        }
    }
    if s.neg_f64().ok {
        assert forall|m: Machine| #[trigger] s.at(m) && s.has_mask(m, SharedLabel::NegF64) implies
            s.computes(s.neg_f64(), m, 1, Width::Q, s.top(m, 0) ^ 0x8000_0000_0000_0000u64) by {
            negation_f64(s, m);
        }
    }
}

pub proof fn lemma_clears_sign(s: State)
    ensures
        s.abs_f32().ok ==> s.clears_sign(s.abs_f32(), Precision::Single),
        s.abs_f64().ok ==> s.clears_sign(s.abs_f64(), Precision::Double),
{
    assert(!SIGN_F32 == 0x7fff_ffffu32 && !SIGN_F64 == 0x7fff_ffff_ffff_ffffu64)
        by (bit_vector);
    if s.abs_f32().ok {
        assert forall|m: Machine| #[trigger] s.at(m) && s.has_mask(m, SharedLabel::AbsF32) implies
            s.computes(
            s.abs_f32(),
            m,
            1,
            Width::D,
            (s.top(m, 0) as u32 & 0x7fff_ffffu32) as u64,
        ) by {
            absolute_f32(s, m);
        }
    }
    if s.abs_f64().ok {
        assert forall|m: Machine| #[trigger] s.at(m) && s.has_mask(m, SharedLabel::AbsF64) implies
            s.computes(s.abs_f64(), m, 1, Width::Q, s.top(m, 0) & 0x7fff_ffff_ffff_ffffu64) by {
            absolute_f64(s, m);
        }
    }
}

/// Of two numbers that are no NaNs one is greater, or both are greater or equal to each other; of
/// a NaN neither holds.
pub proof fn order_of_floats(a: Ieee32, b: Ieee32, c: Ieee64, d: Ieee64)
    ensures
        fold_f32(a, b, false) ==> !fold_f32(b, a, true),
        fold_f32(a, b, false) ==> fold_f32(a, b, true),
        fold_f32(a, b, true) && fold_f32(b, a, true) ==> !fold_f32(a, b, false),
        fold_f64(c, d, false) ==> !fold_f64(d, c, true),
        fold_f64(c, d, false) ==> fold_f64(c, d, true),
        fold_f64(c, d, true) && fold_f64(d, c, true) ==> !fold_f64(c, d, false),
{
}

impl State {
    /// Whether the step from `self` to `t` replaced the topmost `count` values by one, left all
    /// others where they were, and kept the accounts in order.
    pub open spec fn replaces(self, t: State, count: int) -> bool {
        &&& t.accounted()
        &&& t.depth == self.depth
        &&& t.stack.len() == self.stack.len() - count + 1
        &&& t.stack.drop_last() == self.stack.take(self.stack.len() - count)
    }
}

/// The result is pushed.
proof fn lemma_replaced(s: State, u: State, count: int, val: ValueLocation)
    requires
        0 <= count <= s.stack.len(),
        u.owns(one(val)),
        u.depth == s.depth,
        u.stack == s.stack.take(s.stack.len() - count),
    ensures
        s.replaces(u.push(val), count),
{
    lemma_owns_push(u, none(), val);
    assert(u.push(val).stack.drop_last() =~= u.stack);
}

proof fn lemma_some_machine(s: State)
    ensures
        s.reached(Machine::some(), s.code),
{
    broadcast use lemma_ran_nothing;

}

/// Combining a value in a register with another keeps the accounts.
proof fn lemma_apply_accounts(s: State, op: BinOp, reg: GPR, right: ValueLocation)
    requires
        s.owns(two(ValueLocation::Reg(reg), right)),
        s.apply(op, reg.id(), right).ok,
    ensures
        ({
            let t = s.apply(op, reg.id(), right);
            &&& t.owns(one(ValueLocation::Reg(reg)))
            &&& t.stack == s.stack
            &&& t.depth == s.depth
        }),
{
    broadcast use lemma_uses_push;

    let left = ValueLocation::Reg(reg);
    let m = Machine::some();
    let t = s.apply(op, reg.id(), right);
    lemma_some_machine(s);
    match right {
        ValueLocation::Reg(_) => {
            let (s1, other) = s.into_reg(Some(op.file()), right);
            assert(s1.ok);
            lemma_into_reg(s, m, s.code, one(left), Some(op.file()), right);
            let s2 = s1.emit(op.insn(reg.id(), Operand::Gpr(other)));
            lemma_owns_code(s1, s2, two(left, ValueLocation::Reg(other)));
            lemma_owns_free(s2, one(left), ValueLocation::Reg(other));
        },
        ValueLocation::Stack(o) => {
            lemma_owns_forget(s, one(left), right);
            lemma_owns_code(s, t, one(left));
        },
        ValueLocation::Immediate(imm) => {
            lemma_owns_forget(s, one(left), right);
            if op.encodable(imm) {
                lemma_owns_code(s, t, one(left));
            } else {
                let (s1, scratch) = s.take(op.file());
                let x = ValueLocation::Reg(scratch);
                let s2 = s1.immediate_to_reg(scratch, imm);
                assert(s2.ok && s1.ok);
                taken_is_unused(s, one(left), op.file());
                let rsp = GPR::Rq(rq::RSP);
                assert(s1.regs.count(rsp) >= s1.known_uses(two(left, x), rsp));
                assert(s1.code == s.code);
                lemma_some_machine(s1);
                copy_to_register(s1, m, s1.code, right, scratch);
                let s3 = s2.emit(op.insn(reg.id(), Operand::Gpr(scratch)));
                lemma_owns_code(s1, s3, two(left, x));
                lemma_owns_free(s3, one(left), x);
            }
        },
    }
}

/// An operator keeps the accounts of registers.
pub proof fn operator_accounts(s: State, op: BinOp, folded: Value)
    requires
        s.accounted(),
        s.binop(op, folded).ok,
    ensures
        s.replaces(s.binop(op, folded), 2),
{
    broadcast use lemma_uses_push;

    let (s1, right) = s.pop();
    let (s2, left) = s1.pop();
    assert(s2.ok && s1.ok);
    lemma_owns_pop(s, none());
    lemma_owns_pop(s1, one(right));
    assert(s2.stack =~= s.stack.take(s.stack.len() - 2));
    if op.is_const(left) && op.is_const(right) {
        lemma_owns_reorder(s2, two(right, left), none());
        lemma_owns_hold(s2, none(), ValueLocation::Immediate(folded));
        lemma_replaced(s, s2, 2, ValueLocation::Immediate(folded));
    } else {
        let (a, b) = if op.commutes() {
            order_operands(left, right)
        } else {
            (left, right)
        };
        lemma_owns_reorder(s2, two(right, left), two(b, a));
        let (s3, reg) = s2.into_temp_reg(Some(op.file()), a);
        let r = ValueLocation::Reg(reg);
        let s4 = s3.apply(op, reg.id(), b);
        assert(s3.ok && s4.ok);
        lemma_some_machine(s2);
        lemma_into_temp_reg(s2, Machine::some(), s2.code, one(b), Some(op.file()), a);
        lemma_owns_reorder(s3, two(b, r), two(r, b));
        lemma_apply_accounts(s3, op, reg, b);
        lemma_replaced(s, s4, 2, r);
    }
}

/// Comparing two values in hand.
proof fn lemma_compare_accounts(
    s: State,
    prec: Precision,
    cond: Cond,
    left: ValueLocation,
    right: ValueLocation,
)
    requires
        s.owns(two(right, left)),
        s.compare_float(prec, cond, left, right).0.ok,
    ensures
        ({
            let (t, out, l, r) = s.compare_float(prec, cond, left, right);
            &&& t.owns(two(out, r).push(l))
            &&& t.stack == s.stack
            &&& t.depth == s.depth
        }),
{
    broadcast use lemma_uses_push;

    let m = Machine::some();
    let (t, out, l, r) = s.compare_float(prec, cond, left, right);
    if both_float(prec, left, right) {
        lemma_owns_hold(s, two(right, left), out);
        lemma_owns_reorder(s, two(right, left).push(out), two(out, right).push(left));
    } else {
        let (s1, lreg) = s.into_reg(Some(GPRType::Rx), left);
        let (s2, result) = s1.take(GPRType::Rq);
        assert(s1.ok && s2.ok);
        lemma_some_machine(s);
        lemma_into_reg(s, m, s.code, one(right), Some(GPRType::Rx), left);
        taken_is_unused(s1, two(right, l), GPRType::Rq);
        if right is Stack {
            lemma_owns_code(s2, t, two(right, l).push(out));
            lemma_owns_reorder(t, two(right, l).push(out), two(out, right).push(l));
        } else {
            let (s3, rreg) = s2.into_reg(Some(GPRType::Rx), right);
            assert(s3.ok);
            lemma_owns_reorder(s2, two(right, l).push(out), two(out, l).push(right));
            lemma_some_machine(s2);
            lemma_into_reg(s2, m, s2.code, two(out, l), Some(GPRType::Rx), right);
            lemma_owns_code(s3, t, two(out, l).push(r));
            lemma_owns_reorder(t, two(out, l).push(r), two(out, r).push(l));
        }
    }
}

/// The comparisons of floating-point numbers keep the accounts of registers.
pub proof fn float_comparison_accounts(s: State, prec: Precision, cond: Cond)
    requires
        s.accounted(),
    ensures
        s.float_greater(prec, cond).ok ==> s.replaces(s.float_greater(prec, cond), 2),
        s.float_less(prec, cond).ok ==> s.replaces(s.float_less(prec, cond), 2),
{
    broadcast use lemma_uses_push;

    let (s1, right) = s.pop();
    let (s2, left) = s1.pop();
    if s.stack.len() >= 2 {
        lemma_owns_pop(s, none());
        lemma_owns_pop(s1, one(right));
        assert(s2.stack =~= s.stack.take(s.stack.len() - 2));
        if s.float_greater(prec, cond).ok {
            let (t, out, l, r) = s2.compare_float(prec, cond, left, right);
            assert(t.ok);
            lemma_compare_accounts(s2, prec, cond, left, right);
            lemma_owns_free(t, two(out, r), l);
            lemma_owns_free(t.free_value(l), one(out), r);
            lemma_replaced(s, t.free_value(l).free_value(r), 2, out);
        }
        if s.float_less(prec, cond).ok {
            let (t, out, r, l) = s2.compare_float(prec, cond, right, left);
            assert(t.ok);
            lemma_owns_reorder(s2, two(right, left), two(left, right));
            lemma_compare_accounts(s2, prec, cond, right, left);
            lemma_owns_reorder(t, two(out, l).push(r), two(out, r).push(l));
            lemma_owns_free(t, two(out, r), l);
            lemma_owns_free(t.free_value(l), one(out), r);
            lemma_replaced(s, t.free_value(l).free_value(r), 2, out);
        }
    }
}

/// The conversions between integers and floating-point numbers keep the accounts of registers.
pub proof fn conversion_accounts(s: State, folded: Option<Ieee32>)
    requires
        s.accounted(),
        s.stack.len() > 0,
    ensures
        s.truncate_f32().ok ==> s.replaces(s.truncate_f32(), 1),
        s.convert_i32_s(folded).ok ==> s.replaces(s.convert_i32_s(folded), 1),
        s.convert_i32_u(folded).ok ==> s.replaces(s.convert_i32_u(folded), 1),
{
    let (s1, val) = s.pop();
    lemma_owns_pop(s, none());
    assert(s1.stack =~= s.stack.take(s.stack.len() - 1));
    if s.truncate_f32().ok {
        lemma_converted(s, s1, val, s.truncate_f32(), GPRType::Rx, GPRType::Rq);
    }
    if s.convert_i32_s(folded).ok {
        lemma_converted(s, s1, val, s.convert_i32_s(folded), GPRType::Rq, GPRType::Rx);
    }
    if s.convert_i32_u(folded).ok {
        lemma_converted(s, s1, val, s.convert_i32_u(folded), GPRType::Rq, GPRType::Rx);
    }
}

/// A conversion of the value in hand: it is replaced by a constant, or by a new register of the
/// file `to`, for which it may first have been brought into a register of the file `from`.
proof fn lemma_converted(
    s: State,
    u: State,
    val: ValueLocation,
    t: State,
    from: GPRType,
    to: GPRType,
)
    requires
        s.stack.len() > 0,
        u.owns(one(val)),
        u.depth == s.depth,
        u.stack == s.stack.take(s.stack.len() - 1),
        t.ok,
        ({
            let (v, temp) = u.take(to);
            let (w, reg) = u.into_reg(Some(from), val);
            let (x, other) = w.take(to);
            ||| t.stack.len() > 0 && t.stack.last() is Immediate && t == u.push(t.stack.last())
            ||| val is Stack && v.ok && t == (State {
                code: t.code,
                ..v
            }).push(ValueLocation::Reg(temp))
            ||| x.ok && t == (State { code: t.code, ..x.release(reg) }).push(
                ValueLocation::Reg(other),
            )
        }),
    ensures
        s.replaces(t, 1),
{
    broadcast use lemma_uses_push;

    let (v, temp) = u.take(to);
    let (w, reg) = u.into_reg(Some(from), val);
    let (x, other) = w.take(to);
    if t.stack.last() is Immediate && t == u.push(t.stack.last()) {
        lemma_owns_reorder(u, one(val), none());
        lemma_owns_hold(u, none(), t.stack.last());
        lemma_replaced(s, u, 1, t.stack.last());
    } else if val is Stack && v.ok && t == (State { code: t.code, ..v }).push(
        ValueLocation::Reg(temp),
    ) {
        lemma_owns_reorder(u, one(val), none());
        taken_is_unused(u, none(), to);
        let a = State { code: t.code, ..v };
        lemma_owns_code(v, a, one(ValueLocation::Reg(temp)));
        lemma_replaced(s, a, 1, ValueLocation::Reg(temp));
    } else {
        let r = ValueLocation::Reg(reg);
        let o = ValueLocation::Reg(other);
        lemma_some_machine(u);
        assert(w.ok);
        lemma_into_reg(u, Machine::some(), u.code, none(), Some(from), val);
        taken_is_unused(w, one(r), to);
        lemma_owns_reorder(x, two(r, o), two(o, r));
        lemma_owns_free(x, one(o), r);
        let a = State { code: t.code, ..x.release(reg) };
        lemma_owns_code(x.release(reg), a, one(o));
        lemma_replaced(s, a, 1, o);
    }
}

} // verus!
