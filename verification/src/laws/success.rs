//! When operations are possible: a few registers have to be free, and slots have to be within
//! reach.

use vstd::prelude::*;

use crate::arith::{fits_i32, fold_i32, fold_i64, order_operands, BinOp};
use crate::assembly::Label;
use crate::compare::{both_float, const_operand, Relation};
use crate::insn::{AluOp, BitOp, Cond, Operand, Precision, SseOp, Width};
use crate::laws::arith::lemma_owns_code;
use crate::laws::{none, one, two};
use crate::location::ValueLocation;
use crate::machine::Machine;
use crate::memory::LoadOp;
use crate::microwasm::{BrTarget, Ieee32, Ieee64, Value};
use crate::ownership::{
    lemma_owns_free, lemma_owns_pop, lemma_owns_reorder, lemma_uses_push, taken_is_unused,
    use_then_release,
};
use crate::registers::{first_zero, zeros_from, GPRType, GPR};
use crate::simulation::{lemma_into_reg, lemma_into_temp_reg, lemma_ran_nothing};
use crate::state::State;

verus! {

proof fn lemma_zeros_update(counts: Seq<u8>, from: int, i: int, v: u8)
    requires
        0 <= from,
        0 <= i < counts.len(),
    ensures
        from > i ==> zeros_from(counts.update(i, v), from) == zeros_from(counts, from),
        from <= i ==> zeros_from(counts.update(i, v), from) + (if counts[i] == 0 {
            1nat
        } else {
            0nat
        }) == zeros_from(counts, from) + (if v == 0 {
            1nat
        } else {
            0nat
        }),
    decreases counts.len() - from,
{
    if from < counts.len() {
        lemma_zeros_update(counts, from + 1, i, v);
    }
}

proof fn lemma_some_zero(counts: Seq<u8>, from: int)
    requires
        0 <= from,
        zeros_from(counts, from) > 0,
    ensures
        from <= first_zero(counts, from) < counts.len(),
        counts[first_zero(counts, from)] == 0,
    decreases counts.len() - from,
{
    if from < counts.len() && counts[from] != 0 {
        lemma_some_zero(counts, from + 1);
    }
}

impl State {
    /// Whether at least `n` registers of each file are free.
    pub open spec fn spare(self, n: int) -> bool {
        &&& self.regs.wf()
        &&& zeros_from(self.regs.rq, 0) >= n
        &&& zeros_from(self.regs.rx, 0) >= n
    }

    /// Whether the value can be read where it is.
    pub open spec fn reachable(self, val: ValueLocation) -> bool {
        val matches ValueLocation::Stack(o) ==> self.has_slot(o)
    }
}

proof fn lemma_take_succeeds(s: State, ty: GPRType, n: int)
    requires
        s.ok,
        s.spare(n),
        n >= 1,
    ensures
        s.take(ty).0.ok,
        s.take(ty).0.spare(n - 1),
        s.take(ty).1.valid(),
        s.take(ty).1.type_() == ty,
        forall|g: GPR| g.valid() ==> #[trigger] s.take(ty).0.regs.count(g) >= s.regs.count(g),
        s.take(ty).0.regs.count(s.take(ty).1) > 0,
        s.regs.is_free(s.take(ty).1),
{
    let counts = s.regs.file(ty);
    lemma_some_zero(counts, 0);
    let i = first_zero(counts, 0);
    lemma_zeros_update(counts, 0, i, 1);
}

proof fn lemma_release_succeeds(s: State, gpr: GPR, n: int)
    requires
        s.ok,
        s.spare(n),
        gpr.valid(),
        s.regs.count(gpr) > 0,
    ensures
        s.release(gpr).ok,
        s.release(gpr).spare(n),
{
    let counts = s.regs.file(gpr.type_());
    lemma_zeros_update(counts, 0, gpr.id() as int, (counts[gpr.id() as int] - 1) as u8);
}

/// Loading a constant.
proof fn lemma_load_succeeds(s: State, reg: GPR, val: Value, n: int)
    requires
        s.ok,
        s.spare(n),
        n >= 1,
    ensures
        s.immediate_to_reg(reg, val).ok,
        s.immediate_to_reg(reg, val).spare(n),
        s.immediate_to_reg(reg, val).regs == s.regs,
{
    if reg is Rx && val.as_bytes() != 0 {
        lemma_take_succeeds(s, GPRType::Rq, n);
        use_then_release(s.regs, s.take(GPRType::Rq).1);
    }
}

/// Bringing a value into a fresh register.
proof fn lemma_fresh_succeeds(
    s: State,
    held: Seq<ValueLocation>,
    ty: GPRType,
    val: ValueLocation,
    n: int,
)
    requires
        s.ok,
        s.owns(held.push(val)),
        s.spare(n),
        n >= 2,
        s.reachable(val),
    ensures
        s.into_fresh_reg(ty, val).0.ok,
        s.into_fresh_reg(ty, val).0.spare(n - 1),
        s.into_fresh_reg(ty, val).0.depth == s.depth,
{
    broadcast use lemma_uses_push;

    lemma_take_succeeds(s, ty, n);
    let (s1, scratch) = s.take(ty);
    let s2 = s1.copy_value(val, ValueLocation::Reg(scratch));
    match val {
        ValueLocation::Immediate(imm) => {
            lemma_load_succeeds(s1, scratch, imm, n - 1);
        },
        ValueLocation::Reg(r) => {
            assert(held.push(val)[held.len() as int].valid());
            assert(s.regs.count(r) >= s.known_uses(held.push(val), r));
            lemma_release_succeeds(s2, r, n - 1);
        },
        ValueLocation::Stack(_) => {},
    }
}

/// Bringing a value into a register: it is in hand there afterwards.
proof fn lemma_into_reg_succeeds(
    s: State,
    held: Seq<ValueLocation>,
    ty: GPRType,
    val: ValueLocation,
    n: int,
)
    requires
        s.ok,
        s.owns(held.push(val)),
        s.spare(n),
        n >= 2,
        s.reachable(val),
    ensures
        ({
            let (t, gpr) = s.into_reg(Some(ty), val);
            &&& t.ok
            &&& t.spare(n - 1)
            &&& t.depth == s.depth
            &&& t.owns(held.push(ValueLocation::Reg(gpr)))
        }),
{
    broadcast use lemma_ran_nothing;

    if !(val is Reg && ty == val->Reg_0.type_()) {
        lemma_fresh_succeeds(s, held, ty, val, n);
    }
    lemma_into_reg(s, Machine::some(), s.code, held, Some(ty), val);
}

/// Bringing a value into a register that nothing else uses.
proof fn lemma_into_temp_succeeds(
    s: State,
    held: Seq<ValueLocation>,
    ty: GPRType,
    val: ValueLocation,
    n: int,
)
    requires
        s.ok,
        s.owns(held.push(val)),
        s.spare(n),
        n >= 2,
        s.reachable(val),
    ensures
        ({
            let (t, gpr) = s.into_temp_reg(Some(ty), val);
            &&& t.ok
            &&& t.spare(n - 1)
            &&& t.depth == s.depth
            &&& t.owns(held.push(ValueLocation::Reg(gpr)))
        }),
{
    broadcast use lemma_ran_nothing;

    assert(held.push(val)[held.len() as int].valid());
    lemma_fresh_succeeds(s, held, ty, val, n);
    lemma_into_temp_reg(s, Machine::some(), s.code, held, Some(ty), val);
}

/// Two values in hand can be given back in either order.
proof fn lemma_both_freed(s: State, a: ValueLocation, b: ValueLocation)
    requires
        s.ok,
        s.owns(two(a, b)),
    ensures
        s.free_value(b).free_value(a).ok,
        s.free_value(a).free_value(b).ok,
{
    broadcast use lemma_uses_push;

    lemma_owns_free(s, one(a), b);
    lemma_owns_free(s.free_value(b), none(), a);
    lemma_owns_reorder(s, two(a, b), two(b, a));
    lemma_owns_free(s, one(b), a);
    lemma_owns_free(s.free_value(a), none(), b);
}

proof fn lemma_compare_succeeds(
    s: State,
    prec: Precision,
    cond: Cond,
    left: ValueLocation,
    right: ValueLocation,
)
    requires
        s.ok,
        s.owns(two(right, left)),
        s.reachable(left),
        s.reachable(right),
        s.spare(5),
    ensures
        ({
            let (t, out, l, r) = s.compare_float(prec, cond, left, right);
            &&& t.free_value(l).free_value(r).ok
            &&& t.free_value(r).free_value(l).ok
        }),
{
    broadcast use lemma_uses_push;

    let (t, out, l, r) = s.compare_float(prec, cond, left, right);
    if both_float(prec, left, right) {
        lemma_both_freed(t, right, left);
    } else {
        let (s1, lreg) = s.into_reg(Some(GPRType::Rx), left);
        let lval = ValueLocation::Reg(lreg);
        lemma_into_reg_succeeds(s, one(right), GPRType::Rx, left, 5);
        let (s2, result) = s1.take(GPRType::Rq);
        lemma_take_succeeds(s1, GPRType::Rq, 4);
        let hand = two(right, lval);
        taken_is_unused(s1, hand, GPRType::Rq);
        lemma_owns_reorder(s2, hand.push(ValueLocation::Reg(result)), two(lval, right));
        if right is Stack {
            lemma_owns_code(s2, t, two(lval, right));
        } else {
            lemma_into_reg_succeeds(s2, one(lval), GPRType::Rx, right, 3);
            let (s3, rreg) = s2.into_reg(Some(GPRType::Rx), right);
            lemma_owns_code(s3, t, two(lval, ValueLocation::Reg(rreg)));
        }
        lemma_both_freed(t, l, r);
    }
}

/// Comparing two floating-point numbers is possible wherever they are, if they are within reach
/// and a few registers are free.
pub proof fn comparisons_succeed(s: State, prec: Precision, cond: Cond)
    requires
        s.ok,
        s.accounted(),
        s.stack.len() >= 2,
        s.reachable(s.stack[s.stack.len() - 1]),
        s.reachable(s.stack[s.stack.len() - 2]),
        s.spare(5),
    ensures
        s.float_greater(prec, cond).ok,
        s.float_less(prec, cond).ok,
{
    broadcast use lemma_uses_push;

    let (s1, right) = s.pop();
    let (s2, left) = s1.pop();
    lemma_owns_pop(s, none());
    lemma_owns_pop(s1, one(right));
    assert(one(right).push(left) == two(right, left));
    lemma_compare_succeeds(s2, prec, cond, left, right);
    lemma_owns_reorder(s2, two(right, left), two(left, right));
    lemma_compare_succeeds(s2, prec, cond, right, left);
}

/// Whether the top of the stack can be converted: a constant of the type `i32` only if the result
/// is known.
pub open spec fn convertible(val: ValueLocation, known: bool) -> bool {
    val matches ValueLocation::Immediate(imm) ==> imm.as_i32() is Some && known
}

/// Converting and truncating a number is possible wherever it is.
pub proof fn conversions_succeed(s: State, folded: Option<Ieee32>)
    requires
        s.ok,
        s.accounted(),
        s.stack.len() >= 1,
        s.reachable(s.stack.last()),
        s.spare(4),
    ensures
        convertible(s.stack.last(), folded is Some) ==> s.convert_i32_s(folded).ok,
        convertible(s.stack.last(), folded is Some) ==> s.convert_i32_u(folded).ok,
        (s.stack.last() matches ValueLocation::Immediate(imm) ==> imm.as_f32() is Some)
            ==> s.truncate_f32().ok,
{
    let (s1, val) = s.pop();
    lemma_owns_pop(s, none());
    if !(val is Immediate) {
        lemma_converts_from(s1, val, GPRType::Rq, GPRType::Rx);
        lemma_converts_from(s1, val, GPRType::Rx, GPRType::Rq);
    }
}

proof fn lemma_converts_from(s: State, val: ValueLocation, from: GPRType, to: GPRType)
    requires
        s.ok,
        s.owns(one(val)),
        s.reachable(val),
        s.spare(4),
    ensures
        s.take(to).0.ok,
        ({
            let (s1, reg) = s.into_reg(Some(from), val);
            let (s2, temp) = s1.take(to);
            &&& s2.ok
            &&& reg.valid()
            &&& s2.regs.count(reg) > 0
        }),
{
    broadcast use lemma_uses_push;

    lemma_take_succeeds(s, to, 4);
    lemma_into_reg_succeeds(s, none(), from, val, 4);
    let (s1, reg) = s.into_reg(Some(from), val);
    lemma_take_succeeds(s1, to, 3);
    let hand = one(ValueLocation::Reg(reg));
    assert(hand[0].valid());
    assert(s1.regs.count(reg) >= s1.known_uses(hand, reg));
}

/// Applying an operator to two floating-point numbers is possible wherever they are. Of two
/// constants the result has to be known.
pub proof fn operators_succeed(
    s: State,
    op: SseOp,
    folded_f32: Option<Ieee32>,
    folded_f64: Option<Ieee64>,
)
    requires
        s.ok,
        s.accounted(),
        s.stack.len() >= 2,
        is_float_or_elsewhere(s.stack[s.stack.len() - 1]),
        is_float_or_elsewhere(s.stack[s.stack.len() - 2]),
        s.reachable(s.stack[s.stack.len() - 1]),
        s.reachable(s.stack[s.stack.len() - 2]),
        s.spare(5),
    ensures
        folded_f32 is Some ==> s.binop_f32(op, folded_f32).ok,
        folded_f64 is Some ==> s.binop_f64(op, folded_f64).ok,
        !s.both_const(BinOp::F32(op)) ==> s.binop_f32(op, folded_f32).ok,
        !s.both_const(BinOp::F64(op)) ==> s.binop_f64(op, folded_f64).ok,
{
    lemma_operator_succeeds(s, BinOp::F32(op), Value::F32(folded_f32->0));
    lemma_operator_succeeds(s, BinOp::F64(op), Value::F64(folded_f64->0));
    assert(s.need(true) == s);
}

/// Whether a value is no constant, or a floating-point constant.
pub open spec fn is_float_or_elsewhere(val: ValueLocation) -> bool {
    val matches ValueLocation::Immediate(imm) ==> imm.as_int() is None
}

proof fn lemma_operator_succeeds(s: State, op: BinOp, folded: Value)
    requires
        s.ok,
        s.accounted(),
        s.stack.len() >= 2,
        op.file() is Rq || is_float_or_elsewhere(s.stack[s.stack.len() - 1]),
        op.file() is Rq || is_float_or_elsewhere(s.stack[s.stack.len() - 2]),
        s.reachable(s.stack[s.stack.len() - 1]),
        s.reachable(s.stack[s.stack.len() - 2]),
        s.spare(5),
    ensures
        s.binop(op, folded).ok,
{
    broadcast use lemma_uses_push;

    let (s1, right) = s.pop();
    let (s2, left) = s1.pop();
    lemma_owns_pop(s, none());
    lemma_owns_pop(s1, one(right));
    if !(op.is_const(left) && op.is_const(right)) {
        let (a, b) = if op.commutes() {
            order_operands(left, right)
        } else {
            (left, right)
        };
        lemma_owns_reorder(s2, two(right, left), two(b, a));
        lemma_into_temp_succeeds(s2, one(b), op.file(), a, 5);
        let (s3, reg) = s2.into_temp_reg(Some(op.file()), a);
        lemma_owns_reorder(s3, two(b, ValueLocation::Reg(reg)), two(ValueLocation::Reg(reg), b));
        lemma_apply_succeeds(s3, op, reg, b);
    }
}

proof fn lemma_apply_succeeds(s: State, op: BinOp, reg: GPR, right: ValueLocation)
    requires
        s.ok,
        s.owns(two(ValueLocation::Reg(reg), right)),
        op.file() is Rq || is_float_or_elsewhere(right),
        s.reachable(right),
        s.spare(4),
    ensures
        s.apply(op, reg.id(), right).ok,
{
    broadcast use lemma_uses_push;

    match right {
        ValueLocation::Reg(_) => {
            lemma_into_reg_succeeds(s, one(ValueLocation::Reg(reg)), op.file(), right, 4);
            let (s1, r) = s.into_reg(Some(op.file()), right);
            let s2 = s1.emit(op.insn(reg.id(), Operand::Gpr(r)));
            let hand = two(ValueLocation::Reg(reg), ValueLocation::Reg(r));
            lemma_owns_code(s1, s2, hand);
            lemma_owns_free(s2, one(ValueLocation::Reg(reg)), ValueLocation::Reg(r));
        },
        ValueLocation::Stack(_) => {},
        ValueLocation::Immediate(imm) => {
            lemma_take_succeeds(s, op.file(), 4);
            let (s1, scratch) = s.take(op.file());
            lemma_load_succeeds(s1, scratch, imm, 3);
        },
    }
}

proof fn lemma_jumps_succeed(s: State, targets: Seq<BrTarget<Label>>)
    requires
        s.ok,
        s.label_count < usize::MAX,
    ensures
        s.jumps(targets).ok,
        s.jumps(targets).regs == s.regs,
        s.jumps(targets).labels.ret is Some || s.jumps(targets).label_count == s.label_count,
    decreases targets.len(),
{
    if targets.len() > 0 {
        lemma_jumps_succeed(s, targets.drop_last());
    }
}

/// Branching through a table is possible wherever the selector is. One label may be needed for
/// the way back to the caller.
pub proof fn tables_succeed(
    s: State,
    selector: ValueLocation,
    targets: Seq<BrTarget<Label>>,
    default: Option<BrTarget<Label>>,
)
    requires
        s.ok,
        s.owns(one(selector)),
        s.reachable(selector),
        s.spare(4),
        s.label_count < usize::MAX,
    ensures
        s.br_table_end(selector, targets, default).ok,
{
    broadcast use lemma_uses_push;

    if selector.imm_i32() is None {
        if targets.len() > 0 {
            lemma_into_temp_succeeds(s, none(), GPRType::Rq, selector, 4);
            let (s1, reg) = s.into_temp_reg(Some(GPRType::Rq), selector);
            let hand = one(ValueLocation::Reg(reg));
            assert(hand[0].valid());
            assert(s1.regs.count(reg) >= s1.known_uses(hand, reg));
            let (s2, tmp) = s1.take(GPRType::Rq);
            lemma_take_succeeds(s1, GPRType::Rq, 3);
            lemma_load_succeeds(s2, tmp, Value::I32(targets.len() as usize as u32 as i32), 2);
            use_then_release(s1.regs, tmp);
            let s3 = s1.enter_table(reg.id(), targets.len() as usize);
            assert(s3.regs == s1.regs);
            assert(s3.ok);
            assert(s3.label_count == s.label_count);
            lemma_jumps_succeed(s3, targets);
        } else {
            lemma_owns_code(s, s.br_default(default), one(selector));
            lemma_owns_free(s.br_default(default), none(), selector);
        }
    }
}

/// Applying an operator to two integers is possible wherever they are.
pub proof fn integer_operators_succeed(s: State, op: AluOp)
    requires
        s.ok,
        s.accounted(),
        s.stack.len() >= 2,
        s.reachable(s.stack[s.stack.len() - 1]),
        s.reachable(s.stack[s.stack.len() - 2]),
        s.spare(5),
    ensures
        s.binop_i32(op).ok,
        s.binop_i64(op).ok,
{
    let n = s.stack.len();
    let (a, b) = (s.stack[n - 2], s.stack[n - 1]);
    let folded_i32 = Value::I32(fold_i32(op, a.imm_i32()->0, b.imm_i32()->0));
    let folded_i64 = Value::I64(fold_i64(op, a.imm_i64()->0, b.imm_i64()->0));
    lemma_operator_succeeds(s, BinOp::I32(op), folded_i32);
    lemma_operator_succeeds(s, BinOp::I64(op), folded_i64);
}

/// Changing or clearing a sign is possible wherever the number is. A label may be needed for the
/// mask.
pub proof fn sign_operators_succeed(s: State)
    requires
        s.ok,
        s.accounted(),
        s.stack.len() >= 1,
        s.reachable(s.stack.last()),
        s.spare(3),
        s.label_count < usize::MAX,
    ensures
        s.neg_f32().ok,
        s.neg_f64().ok,
        s.abs_f32().ok,
        s.abs_f64().ok,
{
    let (s1, val) = s.pop();
    lemma_owns_pop(s, none());
    lemma_into_temp_succeeds(s1, none(), GPRType::Rx, val, 3);
}

/// Loading a number is possible wherever its address is. An address that is a constant must be an
/// `i32`, and the offset must leave it one.
pub proof fn loads_succeed(s: State, memory: u32, op: LoadOp, offset: u32)
    requires
        s.ok,
        s.accounted(),
        s.stack.len() >= 1,
        s.reachable(s.stack.last()),
        s.stack.last() matches ValueLocation::Immediate(imm) ==> imm.as_i32() is Some && i32::MIN
            <= offset as i32 + imm.as_i32()->0 <= i32::MAX,
        s.spare(5),
    ensures
        s.load(memory, op, offset).ok,
{
    broadcast use lemma_uses_push;

    let (s1, base) = s.pop();
    lemma_owns_pop(s, none());
    let (s2, temp) = s1.take(op.file());
    let dst = ValueLocation::Reg(temp);
    lemma_take_succeeds(s1, op.file(), 5);
    taken_is_unused(s1, one(base), op.file());
    lemma_owns_reorder(s2, two(base, dst), two(dst, base));
    if base is Immediate {
        lemma_take_succeeds(s2, GPRType::Rq, 4);
    } else {
        lemma_into_reg_succeeds(s2, one(dst), GPRType::Rq, base, 4);
        let (s3, gpr) = s2.into_reg(Some(GPRType::Rq), base);
        lemma_take_succeeds(s3, GPRType::Rq, 3);
        use_then_release(s3.regs, s3.take(GPRType::Rq).1);
        let hand = two(dst, ValueLocation::Reg(gpr));
        assert(hand[1].valid());
        assert(s3.regs.count(gpr) >= s3.known_uses(hand, gpr));
    }
}

/// Whether a value can be an operand of an integer instruction: in an integer register, in a slot
/// within reach, or a constant of the right type that fits in 32 bits.
pub open spec fn is_operand(s: State, w: Width, val: ValueLocation) -> bool {
    match val {
        ValueLocation::Reg(gpr) => gpr is Rq,
        ValueLocation::Stack(o) => s.has_slot(o),
        ValueLocation::Immediate(_) => const_operand(w, val) is Some && fits_i32(
            const_operand(w, val)->0,
        ),
    }
}

/// Comparing two integers is possible wherever they are.
pub proof fn relations_succeed(s: State, rel: Relation, w: Width)
    requires
        s.ok,
        s.accounted(),
        s.stack.len() >= 2,
        is_operand(s, w, s.stack[s.stack.len() - 1]),
        is_operand(s, w, s.stack[s.stack.len() - 2]),
        s.spare(4),
    ensures
        s.relation(rel, w).ok,
        s.eqz(w).ok,
{
    broadcast use lemma_uses_push;

    let (s1, right) = s.pop();
    let (s2, left) = s1.pop();
    lemma_owns_pop(s, none());
    lemma_owns_pop(s1, one(right));
    lemma_eqz_succeeds(s, w);
    if left is Immediate {
        lemma_take_succeeds(s2, GPRType::Rq, 4);
        if let ValueLocation::Reg(reg) = right {
            let hand = two(right, left);
            assert(hand[0].valid());
            assert(s2.regs.count(reg) >= s2.known_uses(hand, reg));
        }
    } else {
        lemma_into_reg_succeeds(s2, one(right), GPRType::Rq, left, 4);
        let (s3, lreg) = s2.into_reg(Some(GPRType::Rq), left);
        let lval = ValueLocation::Reg(lreg);
        let (s4, result) = s3.take(GPRType::Rq);
        lemma_take_succeeds(s3, GPRType::Rq, 3);
        let hand = two(right, lval);
        taken_is_unused(s3, hand, GPRType::Rq);
        lemma_owns_reorder(s4, hand.push(ValueLocation::Reg(result)), hand);
        lemma_both_freed(s4, right, lval);
    }
}

proof fn lemma_eqz_succeeds(s: State, w: Width)
    requires
        s.ok,
        s.accounted(),
        s.stack.len() >= 1,
        s.reachable(s.stack.last()),
        s.spare(3),
    ensures
        s.eqz(w).ok,
{
    broadcast use lemma_uses_push;

    let (s1, val) = s.pop();
    lemma_owns_pop(s, none());
    if const_operand(w, val) is None {
        lemma_into_reg_succeeds(s1, none(), GPRType::Rq, val, 3);
        let (s2, reg) = s1.into_reg(Some(GPRType::Rq), val);
        lemma_take_succeeds(s2, GPRType::Rq, 2);
        let hand = one(ValueLocation::Reg(reg));
        assert(hand[0].valid());
        assert(s2.regs.count(reg) >= s2.known_uses(hand, reg));
    }
}

/// Counting bits is possible wherever the integer is.
pub proof fn bit_operators_succeed(s: State, op: BitOp, w: Width)
    requires
        s.ok,
        s.accounted(),
        s.stack.len() >= 1,
        s.reachable(s.stack.last()),
        s.stack.last() matches ValueLocation::Immediate(imm) ==> imm.as_int() is Some,
        s.stack.last() matches ValueLocation::Reg(gpr) ==> gpr is Rq,
        s.spare(1),
    ensures
        s.unop(op, w).ok,
{
    broadcast use lemma_uses_push;

    let (s1, val) = s.pop();
    lemma_owns_pop(s, none());
    lemma_take_succeeds(s1, GPRType::Rq, 1);
    if let ValueLocation::Reg(reg) = val {
        assert(one(val)[0].valid());
        assert(s1.regs.count(reg) >= s1.known_uses(one(val), reg));
    }
}

/// Extending an integer is possible wherever it is.
pub proof fn extensions_succeed(s: State)
    requires
        s.ok,
        s.accounted(),
        s.stack.len() >= 1,
        s.reachable(s.stack.last()),
        s.stack.last() matches ValueLocation::Immediate(imm) ==> imm.as_i32() is Some,
        s.spare(1),
    ensures
        s.extend_u().ok,
        s.extend_s().ok,
{
    broadcast use lemma_uses_push;

    let (s1, val) = s.pop();
    lemma_owns_pop(s, none());
    lemma_owns_free(s1, none(), val);
    if let ValueLocation::Reg(reg) = val {
        assert(one(val)[0].valid());
        assert(s1.regs.count(reg) >= s1.known_uses(one(val), reg));
        lemma_release_succeeds(s1, reg, 1);
    }
    let s2 = s1.free_value(val);
    lemma_take_succeeds(s2, GPRType::Rq, 1);
    use_then_release(s2.regs, s2.take(GPRType::Rq).1);
}

/// A conditional branch is possible wherever the predicate is.
pub proof fn conditional_branches_succeed(
    s: State,
    val: ValueLocation,
    label: Label,
    cond: Cond,
)
    requires
        s.ok,
        s.owns(one(val)),
        s.reachable(val),
        s.spare(2),
    ensures
        s.br_if_end(val, label, cond).ok,
{
    broadcast use lemma_uses_push;

    lemma_into_reg_succeeds(s, none(), GPRType::Rq, val, 2);
    let (s1, reg) = s.into_reg(Some(GPRType::Rq), val);
    let hand = one(ValueLocation::Reg(reg));
    assert(hand[0].valid());
    assert(s1.regs.count(reg) >= s1.known_uses(hand, reg));
}

} // verus!
