//! The comparisons of floating-point numbers.

use vstd::arithmetic::power2::{
    lemma_pow2_pos, lemma_pow2_strictly_increases, lemma_pow2_unfold, pow2,
};
use vstd::prelude::*;

use crate::bits::lemma_u64_views;
use crate::compare::{
    both_float, fold_f32, fold_f64, is_nan_f32, is_nan_f64, order_f32, order_f64,
};
use crate::insn::{AluOp, Cond, Insn, Operand, Precision, Width};
use crate::laws::arith::lemma_owns_code;
use crate::laws::compare::{apart, as_number, lemma_read_apart, lemma_set_byte};
use crate::laws::{lemma_push_result, none, one, two};
use crate::location::ValueLocation;
use crate::machine::{
    compared_floats, float_value, float_width, fractions, is_nan, is_negative, magnitude, scaled,
    trunc, Machine,
};
use crate::microwasm::{Ieee32, Ieee64};
use crate::ownership::{
    lemma_owns_free, lemma_owns_hold, lemma_owns_pop, lemma_owns_reorder, lemma_uses_push,
    taken_is_unused,
};
use crate::registers::{rq, GPRType, RegId, GPR};
use crate::simulation::{lemma_into_reg, lemma_ran_nothing, lemma_ran_push, ran};
use crate::state::State;

verus! {

/// Whether the floating-point number `a` is greater than `b`, or equal to it if `or_equal`.
/// Neither holds of what is no number.
pub open spec fn is_greater(prec: Precision, or_equal: bool, a: u64, b: u64) -> bool {
    &&& !is_nan(prec, a)
    &&& !is_nan(prec, b)
    &&& float_value(prec, a) > float_value(prec, b) || or_equal && float_value(prec, a)
        == float_value(prec, b)
}

proof fn lemma_more_fraction(unit: int, f: int, g: int, p: int)
    by (nonlinear_arith)
    requires
        f < g,
        p > 0,
    ensures
        (unit + f) * p < (unit + g) * p,
{
}

proof fn lemma_less_than_next(unit: int, f: int, p: int)
    by (nonlinear_arith)
    requires
        f < unit,
        p > 0,
    ensures
        (unit + f) * p < unit * (2 * p),
{
}

proof fn lemma_at_least(unit: int, f: int, p: int, q: int)
    by (nonlinear_arith)
    requires
        unit > 0,
        f >= 0,
        0 < p <= q,
    ensures
        unit * p <= (unit + f) * q,
{
}

/// Numbers without sign are ordered as their bits are.
pub proof fn lemma_scaled_increases(prec: Precision, x: int, y: int)
    requires
        0 <= x < y,
    ensures
        scaled(prec, x) < scaled(prec, y),
{
    let unit = fractions(prec);
    let (ex, fx) = (x / unit, x % unit);
    let (ey, fy) = (y / unit, y % unit);
    assert(ex <= ey && (ex == ey ==> fx < fy));
    if ey > 0 {
        lemma_pow2_pos((ey - 1) as nat);
    }
    if ex == ey {
        if ex > 0 {
            lemma_more_fraction(unit, fx, fy, pow2((ex - 1) as nat) as int);
        }
    } else if ex == 0 {
        lemma_at_least(unit, fy, 1, pow2((ey - 1) as nat) as int);
    } else {
        lemma_pow2_pos((ex - 1) as nat);
        lemma_pow2_unfold(ex as nat);
        lemma_less_than_next(unit, fx, pow2((ex - 1) as nat) as int);
        if ex < ey - 1 {
            lemma_pow2_strictly_increases(ex as nat, (ey - 1) as nat);
        }
        lemma_pow2_pos(ex as nat);
        lemma_at_least(unit, fy, pow2(ex as nat) as int, pow2((ey - 1) as nat) as int);
    }
}

proof fn lemma_scaled_order(prec: Precision, x: int, y: int)
    requires
        0 <= x,
        0 <= y,
    ensures
        (scaled(prec, x) < scaled(prec, y)) == (x < y),
        (scaled(prec, x) == scaled(prec, y)) == (x == y),
        scaled(prec, 0) == 0,
{
    if x < y {
        lemma_scaled_increases(prec, x, y);
    } else if y < x {
        lemma_scaled_increases(prec, y, x);
    }
}

proof fn lemma_bits_f32(bits: u32)
    by (bit_vector)
    ensures
        bits & 0x7fff_ffff == bits % 0x8000_0000,
        (bits & 0x8000_0000 != 0) == (bits >= 0x8000_0000),
        (bits as u64) as u32 == bits,
{
}

proof fn lemma_bits_f64(bits: u64)
    by (bit_vector)
    ensures
        bits & 0x7fff_ffff_ffff_ffff == bits % 0x8000_0000_0000_0000,
        (bits & 0x8000_0000_0000_0000 != 0) == (bits >= 0x8000_0000_0000_0000),
{
}

proof fn lemma_order_f32(bits: u32)
    ensures
        is_nan_f32(bits) == is_nan(Precision::Single, bits as u64),
        order_f32(bits) == (if is_negative(Precision::Single, bits as u64) {
            -magnitude(Precision::Single, bits as u64)
        } else {
            magnitude(Precision::Single, bits as u64)
        }),
{
    lemma_bits_f32(bits);
}

proof fn lemma_order_f64(bits: u64)
    ensures
        is_nan_f64(bits) == is_nan(Precision::Double, bits),
        order_f64(bits) == (if is_negative(Precision::Double, bits) {
            -magnitude(Precision::Double, bits)
        } else {
            magnitude(Precision::Double, bits)
        }),
{
    lemma_bits_f64(bits);
}

proof fn lemma_value_order(prec: Precision, a: u64, b: u64)
    ensures
        ({
            let (x, y) = (magnitude(prec, a), magnitude(prec, b));
            let i = if is_negative(prec, a) {
                -x
            } else {
                x
            };
            let j = if is_negative(prec, b) {
                -y
            } else {
                y
            };
            &&& (float_value(prec, a) < float_value(prec, b)) == (i < j)
            &&& (float_value(prec, a) == float_value(prec, b)) == (i == j)
        }),
{
    let (x, y) = (magnitude(prec, a), magnitude(prec, b));
    lemma_scaled_order(prec, x, y);
    lemma_scaled_order(prec, x, 0);
    lemma_scaled_order(prec, y, 0);
}

/// Constants of type `f32` are compared as the numbers that they are.
pub proof fn constants_compared_f32(a: Ieee32, b: Ieee32, or_equal: bool)
    ensures
        fold_f32(a, b, or_equal) == is_greater(Precision::Single, or_equal, a.0 as u64, b.0 as u64),
{
    lemma_order_f32(a.0);
    lemma_order_f32(b.0);
    lemma_value_order(Precision::Single, b.0 as u64, a.0 as u64);
}

/// Constants of type `f64` are compared as the numbers that they are.
pub proof fn constants_compared_f64(a: Ieee64, b: Ieee64, or_equal: bool)
    ensures
        fold_f64(a, b, or_equal) == is_greater(Precision::Double, or_equal, a.0, b.0),
{
    lemma_order_f64(a.0);
    lemma_order_f64(b.0);
    lemma_value_order(Precision::Double, b.0, a.0);
}

/// The flags after a comparison say which number is greater.
proof fn lemma_float_flags(prec: Precision, cond: Cond, a: u64, b: u64)
    requires
        cond is A || cond is Ae,
    ensures
        cond.holds(compared_floats(prec, a, trunc(float_width(prec), b))) == is_greater(
            prec,
            cond is Ae,
            a,
            b,
        ),
{
}

/// The register that gets the result of a comparison.
proof fn lemma_comis_steps(
    m: Machine,
    prec: Precision,
    result: RegId,
    left: RegId,
    right: Operand,
    cond: Cond,
)
    requires
        m.wf(),
        m.next is Next,
        result < 16,
        result != rq::RSP,
        left < 16,
        apart(right, result),
    ensures
        ({
            let n = m.step(
                Insn::Alu { op: AluOp::Xor, w: Width::Q, dst: result, src: Operand::rq(result) },
            ).step(Insn::Comis { prec, left, right }).step(Insn::Setcc { cond, dst: result });
            let holds = cond.holds(
                compared_floats(prec, m.rx[left as int], m.read(float_width(prec), right)),
            );
            n == (Machine {
                rq: m.rq.update(result as int, as_number(holds)),
                flags: n.flags,
                ..m
            })
        }),
{
    lemma_set_byte(m.rq[result as int]);
    let w = float_width(prec);
    let m1 = m.step(
        Insn::Alu { op: AluOp::Xor, w: Width::Q, dst: result, src: Operand::rq(result) },
    );
    assert(m1 == (Machine { rq: m.rq.update(result as int, 0), flags: m1.flags, ..m }));
    lemma_read_apart(m, w, right, result, 0, m1.flags);
    let m2 = m1.step(Insn::Comis { prec, left, right });
    let flags = compared_floats(prec, m.rx[left as int], m.read(w, right));
    assert(m2 == m1.with_flags(Some(flags)));
    let m3 = m2.step(Insn::Setcc { cond, dst: result });
    assert(m3.rq =~= m.rq.update(result as int, as_number(cond.holds(flags))));
}

proof fn lemma_comis(
    s: State,
    m: Machine,
    from: Seq<Insn>,
    prec: Precision,
    result: RegId,
    left: RegId,
    right: Operand,
    cond: Cond,
)
    requires
        s.reached(m, from),
        result < 16,
        result != rq::RSP,
        left < 16,
        apart(right, result),
    ensures
        ({
            let t = s.comis(prec, result, left, right, cond);
            let before = ran(m, from, s.code);
            let n = ran(m, from, t.code);
            let holds = cond.holds(
                compared_floats(
                    prec,
                    before.rx[left as int],
                    before.read(float_width(prec), right),
                ),
            );
            &&& t.reached(m, from)
            &&& t == (State { code: t.code, ..s })
            &&& n == (Machine {
                rq: before.rq.update(result as int, as_number(holds)),
                flags: n.flags,
                ..before
            })
        }),
{
    let before = ran(m, from, s.code);
    lemma_comis_steps(before, prec, result, left, right, cond);
    let i1 = Insn::Alu { op: AluOp::Xor, w: Width::Q, dst: result, src: Operand::rq(result) };
    let i2 = Insn::Comis { prec, left, right };
    let i3 = Insn::Setcc { cond, dst: result };
    lemma_ran_push(m, from, s.code, i1);
    lemma_ran_push(m, from, s.code.push(i1), i2);
    lemma_ran_push(m, from, s.code.push(i1).push(i2), i3);
    assert(before.step(i1).next is Next);
    assert(before.step(i1).step(i2).next is Next);
}

impl State {
    /// Whether the step from `self` to `t` left at `out` one if the number at `left` is greater
    /// than that at `right`, or equal to it if `or_equal`, and zero otherwise; and changed nothing
    /// else that is in use. What is in hand afterwards is `held`.
    spec fn compared_by(
        self,
        t: State,
        m: Machine,
        from: Seq<Insn>,
        out: ValueLocation,
        greater: bool,
        held: Seq<ValueLocation>,
    ) -> bool {
        let before = ran(m, from, self.code);
        let n = ran(m, from, t.code);
        &&& t.reached(m, from)
        &&& t.owns(held)
        &&& t.stack == self.stack
        &&& t.depth == self.depth
        &&& t.value_of(n, out) == as_number(greater)
        &&& self.same_values(none(), before, n)
    }
}

/// Comparing a value in a vector register with one that stays where it is.
proof fn lemma_compared_in_place(
    s: State,
    m: Machine,
    from: Seq<Insn>,
    prec: Precision,
    cond: Cond,
    left: ValueLocation,
    right: ValueLocation,
)
    requires
        s.reached(m, from),
        s.owns(two(right, left)),
        cond is A || cond is Ae,
        !both_float(prec, left, right),
        right is Stack,
        s.compare_float(prec, cond, left, right).0.ok,
    ensures
        ({
            let before = ran(m, from, s.code);
            let (t, out, l, r) = s.compare_float(prec, cond, left, right);
            s.compared_by(
                t,
                m,
                from,
                out,
                is_greater(
                    prec,
                    cond is Ae,
                    s.value_of(before, left),
                    s.value_of(before, right),
                ),
                two(out, r).push(l),
            )
        }),
{
    broadcast use lemma_uses_push;

    let before = ran(m, from, s.code);
    let (t, out, l, r) = s.compare_float(prec, cond, left, right);
    let (s1, lreg) = s.into_reg(Some(GPRType::Rx), left);
    let (s2, result) = s1.take(GPRType::Rq);
    assert(s1.ok && s2.ok);
    lemma_into_reg(s, m, from, one(right), Some(GPRType::Rx), left);
    taken_is_unused(s1, two(right, l), GPRType::Rq);
    let n1 = ran(m, from, s1.code);
    let op = s2.slot(right->Stack_0);
    lemma_comis(s2, m, from, prec, result.id(), lreg.id(), op, cond);
    lemma_float_flags(prec, cond, n1.gpr(lreg), s.value_of(before, right));
    lemma_owns_code(s2, t, two(right, l).push(out));
    lemma_owns_reorder(t, two(right, l).push(out), two(out, right).push(l));
    let n = ran(m, from, t.code);
    assert forall|g: GPR| g.valid() && s.known_uses(none(), g) > 0 implies #[trigger] n.gpr(g)
        == before.gpr(g) by {
        assert(s.known_uses(one(right), g) > 0);
        assert(n1.gpr(g) == before.gpr(g));
    }
}

/// Comparing two values that are both brought into vector registers.
proof fn lemma_compared_in_registers(
    s: State,
    m: Machine,
    from: Seq<Insn>,
    prec: Precision,
    cond: Cond,
    left: ValueLocation,
    right: ValueLocation,
)
    requires
        s.reached(m, from),
        s.owns(two(right, left)),
        cond is A || cond is Ae,
        !both_float(prec, left, right),
        !(right is Stack),
        s.compare_float(prec, cond, left, right).0.ok,
    ensures
        ({
            let before = ran(m, from, s.code);
            let (t, out, l, r) = s.compare_float(prec, cond, left, right);
            s.compared_by(
                t,
                m,
                from,
                out,
                is_greater(
                    prec,
                    cond is Ae,
                    s.value_of(before, left),
                    s.value_of(before, right),
                ),
                two(out, r).push(l),
            )
        }),
{
    broadcast use lemma_uses_push;

    let before = ran(m, from, s.code);
    let (t, out, l, r) = s.compare_float(prec, cond, left, right);
    let (s1, lreg) = s.into_reg(Some(GPRType::Rx), left);
    let (s2, result) = s1.take(GPRType::Rq);
    let (s3, rreg) = s2.into_reg(Some(GPRType::Rx), right);
    assert(s1.ok && s2.ok && s3.ok);
    assert(two(right, left)[0].valid());
    lemma_into_reg(s, m, from, one(right), Some(GPRType::Rx), left);
    taken_is_unused(s1, two(right, l), GPRType::Rq);
    lemma_owns_reorder(s2, two(right, l).push(out), two(out, l).push(right));
    lemma_into_reg(s2, m, from, two(out, l), Some(GPRType::Rx), right);
    let n1 = ran(m, from, s1.code);
    let n3 = ran(m, from, s3.code);
    assert(s2.value_of(n1, right) == s.value_of(before, right)) by {
        if right is Reg {
            assert(s.known_uses(one(right), right->Reg_0) > 0);
            assert(n1.gpr(right->Reg_0) == before.gpr(right->Reg_0));
        }
    }
    assert(n3.gpr(lreg) == n1.gpr(lreg)) by {
        assert(s2.known_uses(two(out, l), lreg) > 0);
    }
    lemma_comis(s3, m, from, prec, result.id(), lreg.id(), Operand::Gpr(rreg), cond);
    lemma_float_flags(prec, cond, n1.gpr(lreg), s.value_of(before, right));
    lemma_owns_code(s3, t, two(out, l).push(r));
    lemma_owns_reorder(t, two(out, l).push(r), two(out, r).push(l));
    let n = ran(m, from, t.code);
    assert forall|g: GPR| g.valid() && s.known_uses(none(), g) > 0 implies #[trigger] n.gpr(g)
        == before.gpr(g) by {
        assert(s.known_uses(one(right), g) > 0);
        assert(n1.gpr(g) == before.gpr(g));
        assert(s2.known_uses(two(out, l), g) > 0);
        assert(n3.gpr(g) == n1.gpr(g));
    }
}

/// Comparing two values in hand.
proof fn lemma_compared(
    s: State,
    m: Machine,
    from: Seq<Insn>,
    prec: Precision,
    cond: Cond,
    left: ValueLocation,
    right: ValueLocation,
)
    requires
        s.reached(m, from),
        s.owns(two(right, left)),
        cond is A || cond is Ae,
        s.compare_float(prec, cond, left, right).0.ok,
    ensures
        ({
            let before = ran(m, from, s.code);
            let (t, out, l, r) = s.compare_float(prec, cond, left, right);
            s.compared_by(
                t,
                m,
                from,
                out,
                is_greater(
                    prec,
                    cond is Ae,
                    s.value_of(before, left),
                    s.value_of(before, right),
                ),
                two(out, r).push(l),
            )
        }),
{
    broadcast use lemma_uses_push;

    if both_float(prec, left, right) {
        let (t, out, l, r) = s.compare_float(prec, cond, left, right);
        lemma_owns_hold(s, two(right, left), out);
        lemma_owns_reorder(s, two(right, left).push(out), two(out, right).push(left));
        match prec {
            Precision::Single => {
                constants_compared_f32(left.imm_f32()->0, right.imm_f32()->0, cond is Ae);
            },
            Precision::Double => {
                lemma_u64_views((left.imm_f64()->0).0);
                lemma_u64_views((right.imm_f64()->0).0);
                constants_compared_f64(left.imm_f64()->0, right.imm_f64()->0, cond is Ae);
            },
        }
    } else if right is Stack {
        lemma_compared_in_place(s, m, from, prec, cond, left, right);
    } else {
        lemma_compared_in_registers(s, m, from, prec, cond, left, right);
    }
}

/// `gt` and `ge` of floating-point numbers leave on the stack one if the number below the top is
/// greater than the top, or equal to it for `ge`, and zero otherwise.
pub proof fn comparison_greater(s: State, m: Machine, prec: Precision, cond: Cond)
    requires
        s.at(m),
        cond is A || cond is Ae,
        s.float_greater(prec, cond).ok,
    ensures
        s.computes(
            s.float_greater(prec, cond),
            m,
            2,
            Width::Q,
            as_number(is_greater(prec, cond is Ae, s.top(m, 1), s.top(m, 0))),
        ),
{
    broadcast use {lemma_ran_nothing, lemma_uses_push};

    let (s1, right) = s.pop();
    let (s2, left) = s1.pop();
    let (t, out, l, r) = s2.compare_float(prec, cond, left, right);
    assert(t.ok && s2.ok && s1.ok);
    lemma_owns_pop(s, none());
    lemma_owns_pop(s1, one(right));
    assert(s2.stack =~= s.stack.take(s.stack.len() - 2));
    lemma_compared(s2, m, s.code, prec, cond, left, right);
    lemma_owns_free(t, two(out, r), l);
    lemma_owns_free(t.free_value(l), one(out), r);
    lemma_push_result(s, t.free_value(l).free_value(r), m, 2, out);
}

/// `lt` and `le` of floating-point numbers leave on the stack one if the number below the top is
/// less than the top, or equal to it for `le`, and zero otherwise.
pub proof fn comparison_less(s: State, m: Machine, prec: Precision, cond: Cond)
    requires
        s.at(m),
        cond is A || cond is Ae,
        s.float_less(prec, cond).ok,
    ensures
        s.computes(
            s.float_less(prec, cond),
            m,
            2,
            Width::Q,
            as_number(is_greater(prec, cond is Ae, s.top(m, 0), s.top(m, 1))),
        ),
{
    broadcast use {lemma_ran_nothing, lemma_uses_push};

    let (s1, right) = s.pop();
    let (s2, left) = s1.pop();
    let (t, out, r, l) = s2.compare_float(prec, cond, right, left);
    assert(t.ok && s2.ok && s1.ok);
    lemma_owns_pop(s, none());
    lemma_owns_pop(s1, one(right));
    assert(s2.stack =~= s.stack.take(s.stack.len() - 2));
    lemma_owns_reorder(s2, two(right, left), two(left, right));
    lemma_compared(s2, m, s.code, prec, cond, right, left);
    lemma_owns_reorder(t, two(out, l).push(r), two(out, r).push(l));
    lemma_owns_free(t, two(out, r), l);
    lemma_owns_free(t.free_value(l), one(out), r);
    lemma_push_result(s, t.free_value(l).free_value(r), m, 2, out);
}

impl State {
    /// Whether the step from `self` to `t`, whatever machine runs its code, replaces the two
    /// numbers on top of the stack by one if the lower of them is greater than the top, or equal
    /// to it if `or_equal`, and by zero otherwise.
    pub open spec fn tells_greater(self, t: State, prec: Precision, or_equal: bool) -> bool {
        forall|m: Machine| #[trigger]
            self.at(m) ==> self.computes(
                t,
                m,
                2,
                Width::Q,
                as_number(is_greater(prec, or_equal, self.top(m, 1), self.top(m, 0))),
            )
    }

    /// The same for less than.
    pub open spec fn tells_less(self, t: State, prec: Precision, or_equal: bool) -> bool {
        forall|m: Machine| #[trigger]
            self.at(m) ==> self.computes(
                t,
                m,
                2,
                Width::Q,
                as_number(is_greater(prec, or_equal, self.top(m, 0), self.top(m, 1))),
            )
    }
}

pub proof fn lemma_tells_greater(s: State, prec: Precision, cond: Cond)
    requires
        cond is A || cond is Ae,
        s.float_greater(prec, cond).ok,
    ensures
        s.tells_greater(s.float_greater(prec, cond), prec, cond is Ae),
{
    assert forall|m: Machine| #[trigger] s.at(m) implies s.computes(
        s.float_greater(prec, cond),
        m,
        2,
        Width::Q,
        as_number(is_greater(prec, cond is Ae, s.top(m, 1), s.top(m, 0))),
    ) by {
        comparison_greater(s, m, prec, cond);
    }
}

pub proof fn lemma_tells_less(s: State, prec: Precision, cond: Cond)
    requires
        cond is A || cond is Ae,
        s.float_less(prec, cond).ok,
    ensures
        s.tells_less(s.float_less(prec, cond), prec, cond is Ae),
{
    assert forall|m: Machine| #[trigger] s.at(m) implies s.computes(
        s.float_less(prec, cond),
        m,
        2,
        Width::Q,
        as_number(is_greater(prec, cond is Ae, s.top(m, 0), s.top(m, 1))),
    ) by {
        comparison_less(s, m, prec, cond);
    }
}

} // verus!
