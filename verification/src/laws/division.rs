//! Division of integers.

use vstd::prelude::*;

use crate::bits::{lemma_i64_views, lemma_u64_views};
use crate::division::{
    divisor_spares_rax_and_rdx, is_const_of, lemma_division_pops,
    lemma_push_result_ok, quotient_of, rax, rdx, remainder_of, zero_of, Saved,
};
use crate::insn::{AluOp, Insn, Operand, Width};
use crate::laws::arith::{
    lemma_count_bytes, lemma_i32_as_u32, lemma_i32_bytes, lemma_i32_of_bytes, lemma_i32_wide,
    lemma_i64_as_u64, lemma_owns_code, lemma_push_folded,
};
use crate::laws::compare::lemma_set_byte;
use crate::laws::{lemma_push_result, none, one, two};
use crate::location::ValueLocation;
use crate::microwasm::Value;
use crate::machine::{abs, least_number, quotient, remainder, signed, trunc, Machine};
use crate::ownership::{
    lemma_count_mark_used, lemma_count_release, lemma_owns_free, lemma_owns_mark_used,
    lemma_owns_pop, lemma_owns_reorder, lemma_uses_push, taken_is_unused, uses,
};
use crate::registers::{lemma_lowest_free, rq, GPRType, RegId, GPR};
use crate::simulation::{
    copy_to_register, grown, lemma_into_fresh_reg, lemma_into_reg, lemma_ran_nothing,
    lemma_ran_push, ran,
};
use crate::state::State;

verus! {

/// What is in hand, and what was saved.
pub open spec fn hold(held: Seq<ValueLocation>, saved: Option<GPR>) -> Seq<ValueLocation> {
    match saved {
        Some(gpr) => held.push(ValueLocation::Reg(gpr)),
        None => held,
    }
}

pub broadcast proof fn lemma_uses_hold(held: Seq<ValueLocation>, saved: Option<GPR>, gpr: GPR)
    ensures
        #[trigger] uses(hold(held, saved), gpr) == uses(held, gpr) + (if saved == Some(gpr) {
            1nat
        } else {
            0nat
        }),
{
    broadcast use lemma_uses_push;

}

/// The divisor is brought to where the division leaves it alone.
proof fn lemma_place_divisor(
    s: State,
    m: Machine,
    from: Seq<Insn>,
    dividend: ValueLocation,
    divisor: ValueLocation,
)
    requires
        s.reached(m, from),
        s.owns(two(dividend, divisor)),
        s.place_divisor(divisor).0.ok,
    ensures
        ({
            let (t, placed) = s.place_divisor(divisor);
            let before = ran(m, from, s.code);
            let n = ran(m, from, t.code);
            &&& s.ok
            &&& t.reached(m, from)
            &&& t == (State { code: t.code, regs: t.regs, ..s })
            &&& t.owns(two(dividend, placed))
            &&& !(placed is Immediate)
            &&& placed != ValueLocation::Reg(rax())
            &&& placed != ValueLocation::Reg(rdx())
            &&& placed is Reg ==> placed->Reg_0 is Rq
            &&& t.value_of(n, placed) == s.value_of(before, divisor)
            &&& n.mem == before.mem
            &&& n.rsp == before.rsp
            &&& forall|g: GPR|
                g.valid() && (s.known_uses(one(dividend), g) > 0 || g == rax() || g == rdx())
                    ==> #[trigger] n.gpr(g) == before.gpr(g)
        }),
{
    broadcast use {lemma_ran_push, lemma_uses_push};

    let before = ran(m, from, s.code);
    let a = ValueLocation::Reg(rax());
    let d = ValueLocation::Reg(rdx());
    divisor_spares_rax_and_rdx(s, divisor);
    let s1 = s.mark_used(rax());
    let s2 = s1.mark_used(rdx());
    lemma_owns_mark_used(s, two(dividend, divisor), rax());
    lemma_owns_mark_used(s1, two(dividend, divisor).push(a), rdx());
    let was = two(dividend, divisor).push(a).push(d);
    let h = two(dividend, a).push(d);
    lemma_owns_reorder(s2, was, h.push(divisor));
    let (s3, placed) = if divisor == a || divisor == d {
        let (s3, new_reg) = s2.into_fresh_reg(GPRType::Rq, divisor);
        (s3, ValueLocation::Reg(new_reg))
    } else if divisor is Stack {
        (s2, divisor)
    } else {
        let (s3, reg) = s2.into_reg(Some(GPRType::Rq), divisor);
        (s3, ValueLocation::Reg(reg))
    };
    assert(s3.ok);
    if divisor == a || divisor == d {
        lemma_into_fresh_reg(s2, m, from, h, GPRType::Rq, divisor);
    } else if divisor is Stack {
    } else {
        lemma_into_reg(s2, m, from, h, Some(GPRType::Rq), divisor);
    }
    assert(s3.owns(h.push(placed)));
    lemma_owns_reorder(s3, h.push(placed), two(dividend, placed).push(a).push(d));
    lemma_owns_free(s3, two(dividend, placed).push(a), d);
    let s4 = s3.release(rdx());
    lemma_owns_free(s4, two(dividend, placed), a);
    let n = ran(m, from, s3.code);
    assert forall|g: GPR|
        g.valid() && (s.known_uses(one(dividend), g) > 0 || g == rax() || g
            == rdx()) implies #[trigger] n.gpr(g) == before.gpr(g) by {
        assert(s2.known_uses(h, g) > 0);
    }
}

/// Saving a register in one that is unused.
proof fn lemma_save_reg(s: State, m: Machine, from: Seq<Insn>, held: Seq<ValueLocation>, r: RegId)
    requires
        s.reached(m, from),
        s.owns(held),
        s.save_reg(r).0.ok,
    ensures
        ({
            let (t, saved) = s.save_reg(r);
            let before = ran(m, from, s.code);
            let n = ran(m, from, t.code);
            &&& saved is Some
            &&& saved->0 is Rq
            &&& saved->0.valid()
            &&& s.ok
            &&& s.regs.is_free(saved->0)
            &&& s.known_uses(held, saved->0) == 0
            &&& t.reached(m, from)
            &&& t == (State { code: t.code, regs: t.regs, ..s })
            &&& t.owns(hold(held, saved))
            &&& n == before.with_gpr(saved->0, before.rq[r as int])
        }),
{
    broadcast use lemma_ran_push;

    let (s1, g) = s.take(GPRType::Rq);
    taken_is_unused(s, held, GPRType::Rq);
    lemma_owns_code(s1, s.save_reg(r).0, held.push(ValueLocation::Reg(g)));
}

proof fn lemma_save_rax(
    s: State,
    m: Machine,
    from: Seq<Insn>,
    held: Seq<ValueLocation>,
    dividend: ValueLocation,
)
    requires
        s.reached(m, from),
        s.owns(held.push(dividend)),
        s.save_rax(dividend).0.ok,
    ensures
        ({
            let (t, saved) = s.save_rax(dividend);
            let before = ran(m, from, s.code);
            let n = ran(m, from, t.code);
            &&& s.ok
            &&& t.reached(m, from)
            &&& t == (State { code: t.code, regs: t.regs, ..s })
            &&& t.owns(hold(held.push(dividend).push(dividend), saved))
            &&& match saved {
                Some(g) => {
                    &&& g is Rq
                    &&& g.valid()
                    &&& g != rax()
                    &&& s.known_uses(held.push(dividend), g) == 0
                    &&& n == before.with_gpr(g, before.gpr(rax()))
                    &&& !t.regs.is_free(rax())
                    &&& dividend != ValueLocation::Reg(rax())
                },
                None => {
                    &&& n == before
                    &&& dividend == ValueLocation::Reg(rax()) || s.known_uses(held, rax()) == 0
                },
            }
        }),
{
    broadcast use {lemma_uses_push, lemma_uses_hold};

    let h0 = held.push(dividend);
    assert(h0[held.len() as int].valid());
    // The use of the dividend that is counted here is never given back.
    let s1 = match dividend {
        ValueLocation::Reg(r) => s.mark_used(r),
        _ => s,
    };
    assert(s1.ok);
    assert(s1.owns(h0.push(dividend))) by {
        match dividend {
            ValueLocation::Reg(r) => {
                lemma_owns_mark_used(s, h0, r);
            },
            _ => {
                lemma_owns_reorder(s, h0, h0.push(dividend));
            },
        }
    }
    assert(s1.regs.count(rax()) >= s1.known_uses(h0.push(dividend), rax()));
    if dividend != ValueLocation::Reg(rax()) && !s1.regs.is_free(rax()) {
        lemma_save_reg(s1, m, from, h0.push(dividend), rq::RAX);
    }
}

proof fn lemma_load_rax(
    s: State,
    m: Machine,
    from: Seq<Insn>,
    held: Seq<ValueLocation>,
    dividend: ValueLocation,
)
    requires
        s.reached(m, from),
        s.owns(held.push(dividend)),
        s.load_rax(dividend).ok,
    ensures
        ({
            let t = s.load_rax(dividend);
            let before = ran(m, from, s.code);
            let n = ran(m, from, t.code);
            &&& s.ok
            &&& t.reached(m, from)
            &&& t == (State { code: t.code, regs: t.regs, ..s })
            &&& t.owns(held.push(ValueLocation::Reg(rax())))
            &&& dividend != ValueLocation::Reg(rax()) ==> t.regs.count(rax()) == s.regs.count(
                rax(),
            ) + 1
            &&& n.gpr(rax()) == s.value_of(before, dividend)
            &&& n.mem == before.mem
            &&& n.rsp == before.rsp
            &&& forall|g: GPR|
                g.valid() && g != rax() && (s.known_uses(held, g) > 0 || !t.regs.is_free(g))
                    ==> #[trigger] n.gpr(g) == before.gpr(g)
        }),
{
    broadcast use {lemma_uses_push, lemma_count_mark_used, lemma_count_release};

    let before = ran(m, from, s.code);
    let a = ValueLocation::Reg(rax());
    let s1 = s.mark_used(rax());
    assert(s1.ok);
    assert(held.push(dividend)[held.len() as int].valid());
    lemma_owns_mark_used(s, held.push(dividend), rax());
    let rsp = GPR::Rq(rq::RSP);
    let h1 = held.push(dividend).push(a);
    assert(s1.regs.count(rsp) >= s1.known_uses(h1, rsp));
    copy_to_register(s1, m, from, dividend, rax());
    let s2 = s1.copy_value(dividend, a);
    lemma_owns_reorder(s2, h1, held.push(a).push(dividend));
    lemma_owns_free(s2, held.push(a), dividend);
    let t = s2.free_value(dividend);
    let n = ran(m, from, t.code);
    assert forall|g: GPR|
        g.valid() && g != rax() && (s.known_uses(held, g) > 0 || !t.regs.is_free(
            g,
        )) implies #[trigger] n.gpr(g) == before.gpr(g) by {
        assert(s1.regs.count(g) >= s1.known_uses(h1, g));
        if dividend is Reg {
            assert(s1.regs.count(dividend->Reg_0) >= s1.known_uses(h1, dividend->Reg_0));
            assert(t.regs.count(g) <= s1.regs.count(g));
        }
        assert(!s1.regs.is_free(g));
    }
}

proof fn lemma_save_rdx(s: State, m: Machine, from: Seq<Insn>, held: Seq<ValueLocation>)
    requires
        s.reached(m, from),
        s.owns(held),
        s.save_rdx().0.ok,
    ensures
        ({
            let (t, saved) = s.save_rdx();
            let before = ran(m, from, s.code);
            let n = ran(m, from, t.code);
            &&& s.ok
            &&& t.reached(m, from)
            &&& t == (State { code: t.code, regs: t.regs, ..s })
            &&& t.owns(hold(held, saved))
            &&& match saved {
                Some(g) => {
                    &&& g is Rq
                    &&& g.valid()
                    &&& g != rdx()
                    &&& !s.regs.is_free(rdx())
                    &&& !t.regs.is_free(rdx())
                    &&& s.regs.is_free(g)
                    &&& t.regs == s.regs.mark_used(g)
                    &&& s.known_uses(held, g) == 0
                    &&& n == before.with_gpr(g, before.gpr(rdx()))
                },
                None => {
                    &&& n == before
                    &&& t.regs == s.regs
                    &&& s.known_uses(held, rdx()) == 0
                },
            }
        }),
{
    assert(s.regs.count(rdx()) >= s.known_uses(held, rdx()));
    if !s.regs.is_free(rdx()) {
        lemma_save_reg(s, m, from, held, rq::RDX);
    }
}

/// What is known of the registers that were saved before the division, when `held` was in hand.
pub open spec fn saved_well(
    s: State,
    held: Seq<ValueLocation>,
    before: Machine,
    n: Machine,
    dividend: ValueLocation,
    saved: Saved,
) -> bool {
    &&& saved.rax is Some ==> {
        let g = saved.rax->0;
        &&& g is Rq
        &&& g.valid()
        &&& g != rax()
        &&& s.known_uses(held, g) == 0
        &&& n.gpr(g) == before.gpr(rax())
    }
    &&& saved.rdx is Some ==> {
        let g = saved.rdx->0;
        &&& g is Rq
        &&& g.valid()
        &&& g != rax()
        &&& g != rdx()
        &&& saved.rax != Some(g)
        &&& s.known_uses(held, g) == 0
        &&& n.gpr(g) == before.gpr(rdx())
    }
    &&& dividend != ValueLocation::Reg(rax()) && s.known_uses(none(), rax()) > 0 ==> saved.rax
        is Some
    &&& s.known_uses(none(), rdx()) > 0 ==> saved.rdx is Some
}

/// The dividend is brought into `rax`, and what was in `rax` and `rdx` is saved.
proof fn lemma_place_dividend(
    s: State,
    m: Machine,
    from: Seq<Insn>,
    divisor: ValueLocation,
    dividend: ValueLocation,
)
    requires
        s.reached(m, from),
        s.owns(two(divisor, dividend)),
        s.place_dividend(dividend).0.ok,
        s.place_dividend(dividend).1.rax != Some(rdx()),
    ensures
        ({
            let (t, saved) = s.place_dividend(dividend);
            let before = ran(m, from, s.code);
            let n = ran(m, from, t.code);
            &&& s.ok
            &&& t.reached(m, from)
            &&& t == (State { code: t.code, regs: t.regs, ..s })
            &&& t.owns(
                hold(hold(two(divisor, ValueLocation::Reg(rax())), saved.rax), saved.rdx),
            )
            &&& n.gpr(rax()) == s.value_of(before, dividend)
            &&& n.mem == before.mem
            &&& n.rsp == before.rsp
            &&& saved_well(s, one(divisor), before, n, dividend, saved)
            &&& saved.rax is Some ==> t.regs.count(rax()) > 1
            &&& saved.rdx is Some ==> t.regs.count(rdx()) > 0
            &&& forall|g: GPR|
                g.valid() && g != rax() && s.known_uses(one(divisor), g) > 0 ==> #[trigger] n.gpr(g)
                    == before.gpr(g)
        }),
{
    broadcast use {lemma_uses_push, lemma_uses_hold};

    let before = ran(m, from, s.code);
    let a = ValueLocation::Reg(rax());
    let (s1, saved_rax) = s.save_rax(dividend);
    let s2 = s1.load_rax(dividend);
    let (t, saved_rdx) = s2.save_rdx();
    assert(s.place_dividend(dividend) == (t, Saved { rax: saved_rax, rdx: saved_rdx }));
    assert(s1.ok && s2.ok);
    lemma_save_rax(s, m, from, one(divisor), dividend);
    let h1 = hold(one(divisor), saved_rax);
    lemma_owns_reorder(
        s1,
        hold(two(divisor, dividend).push(dividend), saved_rax),
        h1.push(dividend),
    );
    lemma_load_rax(s1, m, from, h1, dividend);
    lemma_save_rdx(s2, m, from, h1.push(a));
    lemma_owns_reorder(
        t,
        hold(h1.push(a), saved_rdx),
        hold(hold(two(divisor, a), saved_rax), saved_rdx),
    );
    let n1 = ran(m, from, s1.code);
    let n2 = ran(m, from, s2.code);
    let n = ran(m, from, t.code);
    assert(two(divisor, dividend)[1].valid());
    assert(s1.value_of(n1, dividend) == s.value_of(before, dividend));
    assert(n2.gpr(rax()) == s.value_of(before, dividend));
    assert(n.gpr(rax()) == n2.gpr(rax())) by {
        assert(s2.known_uses(h1.push(a), rax()) > 0);
    }
    assert forall|g: GPR|
        g.valid() && g != rax() && s.known_uses(one(divisor), g) > 0 implies #[trigger] n.gpr(
        g,
    ) == before.gpr(g) by {
        assert(n1.gpr(g) == before.gpr(g));
        assert(s1.known_uses(h1, g) > 0);
        assert(n2.gpr(g) == n1.gpr(g));
        assert(s2.known_uses(h1.push(a), g) > 0);
        assert(n.gpr(g) == n2.gpr(g));
    }
    if saved_rax is Some {
        let g = saved_rax->0;
        assert(s1.known_uses(h1, g) > 0);
        assert(n2.gpr(g) == n1.gpr(g));
        assert(s2.known_uses(h1.push(a), g) > 0);
        assert(n.gpr(g) == n2.gpr(g));
    }
    if saved_rdx is Some {
        assert(n2.gpr(rdx()) == n1.gpr(rdx()));
        assert(n1.gpr(rdx()) == before.gpr(rdx()));
    }
    if saved_rax is Some {
        assert(s2.regs.count(rax()) > 1);
        if saved_rdx is Some {
            lemma_count_mark_used(s2.regs, saved_rdx->0, rax());
        }
    }
}

/// The quotient of the lowest bits of two values.
pub open spec fn quotient_value(sign: bool, w: Width, a: u64, b: u64) -> u64 {
    if sign {
        trunc(w, quotient(signed(w, a), signed(w, b)) as u64)
    } else {
        trunc(w, a) / trunc(w, b)
    }
}

/// The remainder of the lowest bits of two values.
pub open spec fn remainder_value(sign: bool, w: Width, a: u64, b: u64) -> u64 {
    if sign {
        trunc(w, remainder(signed(w, a), signed(w, b)) as u64)
    } else {
        trunc(w, a) % trunc(w, b)
    }
}

/// Whether the quotient is too large for its type.
pub open spec fn overflows(sign: bool, w: Width, a: u64, b: u64) -> bool {
    sign && signed(w, a) == least_number(w) && signed(w, b) == -1
}

/// Whether a division traps: the divisor is zero or the quotient is too large.
pub open spec fn division_traps(sign: bool, w: Width, a: u64, b: u64) -> bool {
    trunc(w, b) == 0 || overflows(sign, w, a, b)
}

proof fn lemma_all_ones()
    by (bit_vector)
    ensures
        ((0xffff_ffff_ffff_ffffu64 as u32) as u64) as i32 == -1,
        (0xffff_ffff_ffff_ffffu64) as i64 == -1,
        (0u64 as u32) as u64 == 0,
        (0u64) as i32 == 0,
        (0u64) as i64 == 0,
{
}

/// Filling `rdx` for a division.
proof fn lemma_prepare(m: Machine, sign: bool, w: Width)
    requires
        m.wf(),
        w is D || w is Q,
    ensures
        ({
            let n = m.step(prepare_insn(sign, w));
            let d = n.rq[rq::RDX as int];
            &&& n == m.with_gpr(rdx(), d).with_flags(n.flags)
            &&& if sign {
                signed(w, d) == (if signed(w, m.rq[rq::RAX as int]) < 0 {
                    -1int
                } else {
                    0int
                })
            } else {
                trunc(w, d) == 0
            }
        }),
{
    lemma_all_ones();
    lemma_set_byte(m.rq[rq::RDX as int]);
}

/// The instruction that fills `rdx` for a division.
pub open spec fn prepare_insn(sign: bool, w: Width) -> Insn {
    if sign {
        Insn::SignExtendAcc { w }
    } else {
        Insn::Alu { op: AluOp::Xor, w, dst: rq::RDX, src: Operand::rq(rq::RDX) }
    }
}

/// Where a division reads its divisor.
pub open spec fn divisor_operand(s: State, placed: ValueLocation) -> Operand {
    match placed {
        ValueLocation::Stack(o) => s.slot(o),
        ValueLocation::Reg(r) => Operand::Gpr(r),
        ValueLocation::Immediate(_) => Operand::Imm(0),
    }
}

/// The division itself, once its operands are in their places.
proof fn lemma_divide(
    s: State,
    m: Machine,
    from: Seq<Insn>,
    sign: bool,
    w: Width,
    placed: ValueLocation,
)
    requires
        s.reached(m, from),
        w is D || w is Q,
        !(placed is Immediate),
        placed.valid(),
        placed != ValueLocation::Reg(rax()),
        placed != ValueLocation::Reg(rdx()),
        s.divide(sign, w, placed).ok,
    ensures
        ({
            let t = s.divide(sign, w, placed);
            let before = ran(m, from, s.code);
            let n = ran(m, from, t.code);
            let a = before.gpr(rax());
            let b = s.value_of(before, placed);
            &&& s.ok
            &&& grown(from, t.code)
            &&& t == (State { code: t.code, ..s })
            &&& if division_traps(sign, w, a, b) {
                n.next is Trap
            } else {
                &&& t.reached(m, from)
                &&& n == before.with_flags(None).with_gpr(
                    rax(),
                    quotient_value(sign, w, a, b),
                ).with_gpr(rdx(), remainder_value(sign, w, a, b))
            }
        }),
{
    let before = ran(m, from, s.code);
    let b = s.value_of(before, placed);
    let src = divisor_operand(s, placed);
    let i1 = prepare_insn(sign, w);
    let i2 = Insn::Div { signed: sign, w, src };
    lemma_ran_push(m, from, s.code, i1);
    lemma_ran_push(m, from, s.code.push(i1), i2);
    lemma_prepare(before, sign, w);
    let n1 = before.step(i1);
    assert(n1.rq[rq::RAX as int] == before.rq[rq::RAX as int]);
    lemma_divisor_read(s, before, n1, w, placed);
    lemma_divided(before, n1, sign, w, b);
    assert(n1.step(i2) == n1.divided(sign, w, trunc(w, b)));
}

proof fn lemma_divisor_read(s: State, m: Machine, n: Machine, w: Width, placed: ValueLocation)
    requires
        m.wf(),
        !(placed is Immediate),
        placed.valid(),
        placed != ValueLocation::Reg(rdx()),
        n == m.with_gpr(rdx(), n.rq[rq::RDX as int]).with_flags(n.flags),
    ensures
        n.read(w, divisor_operand(s, placed)) == trunc(w, s.value_of(m, placed)),
{
}

/// What the division gives once `rdx` is filled.
proof fn lemma_divided(m: Machine, n: Machine, sign: bool, w: Width, b: u64)
    requires
        m.wf(),
        m.next is Next,
        w is D || w is Q,
        n == m.with_gpr(rdx(), n.rq[rq::RDX as int]).with_flags(n.flags),
        if sign {
            signed(w, n.rq[rq::RDX as int]) == (if signed(w, m.rq[rq::RAX as int]) < 0 {
                -1int
            } else {
                0int
            })
        } else {
            trunc(w, n.rq[rq::RDX as int]) == 0
        },
    ensures
        ({
            let a = m.rq[rq::RAX as int];
            let d = n.divided(sign, w, trunc(w, b));
            if division_traps(sign, w, a, b) {
                d.next is Trap
            } else {
                d == m.with_flags(None).with_gpr(
                    rax(),
                    quotient_value(sign, w, a, b),
                ).with_gpr(rdx(), remainder_value(sign, w, a, b))
            }
        }),
{
    lemma_u64_views(b);
    let a = m.rq[rq::RAX as int];
    assert(n.rq[rq::RAX as int] == a);
    if !division_traps(sign, w, a, b) {
        let d = n.divided(sign, w, trunc(w, b));
        assert(d.rq =~= m.rq.update(rq::RAX as int, quotient_value(sign, w, a, b)).update(
            rq::RDX as int,
            remainder_value(sign, w, a, b),
        ));
    }
}

/// The result is moved out of a register if that register is wanted back.
proof fn lemma_move_result(
    s: State,
    m: Machine,
    from: Seq<Insn>,
    held: Seq<ValueLocation>,
    reg: GPR,
    saved: Option<GPR>,
)
    requires
        s.reached(m, from),
        s.owns(held.push(ValueLocation::Reg(reg))),
        reg is Rq,
        s.move_result(reg, saved).0.ok,
    ensures
        ({
            let (t, out) = s.move_result(reg, saved);
            let before = ran(m, from, s.code);
            let n = ran(m, from, t.code);
            &&& s.ok
            &&& t.reached(m, from)
            &&& t == (State { code: t.code, regs: t.regs, ..s })
            &&& t.owns(held.push(ValueLocation::Reg(out)))
            &&& out is Rq
            &&& out.valid()
            &&& if saved is Some {
                &&& s.known_uses(held.push(ValueLocation::Reg(reg)), out) == 0
                &&& n == before.with_gpr(out, before.gpr(reg))
            } else {
                &&& out == reg
                &&& n == before
            }
        }),
{
    broadcast use {lemma_ran_push, lemma_uses_push};

    let r = ValueLocation::Reg(reg);
    assert(held.push(r)[held.len() as int].valid());
    if saved is Some {
        let (s1, out) = s.take(GPRType::Rq);
        let o = ValueLocation::Reg(out);
        assert(s1.ok);
        taken_is_unused(s, held.push(r), GPRType::Rq);
        let s2 = s1.emit(Insn::Mov { w: Width::Q, dst: Operand::Gpr(out), src: Operand::Gpr(reg) });
        lemma_owns_code(s1, s2, held.push(r).push(o));
        lemma_owns_reorder(s2, held.push(r).push(o), held.push(o).push(r));
        lemma_owns_free(s2, held.push(o), r);
    }
}

/// A register gets back what was saved of it.
proof fn lemma_restore(
    s: State,
    m: Machine,
    from: Seq<Insn>,
    held: Seq<ValueLocation>,
    saved: Option<GPR>,
    dst: GPR,
)
    requires
        s.reached(m, from),
        s.owns(hold(held, saved)),
        saved is Some ==> saved->0 is Rq && saved->0 != dst,
        dst == rax() || dst == rdx(),
        s.restore(saved, dst).ok,
    ensures
        ({
            let t = s.restore(saved, dst);
            let before = ran(m, from, s.code);
            let n = ran(m, from, t.code);
            &&& s.ok
            &&& t.reached(m, from)
            &&& t == (State { code: t.code, regs: t.regs, ..s })
            &&& t.owns(held)
            &&& n == (match saved {
                Some(g) => before.with_gpr(dst, before.gpr(g)),
                None => before,
            })
        }),
{
    broadcast use {lemma_ran_push, lemma_uses_push};

    if saved is Some {
        let g = saved->0;
        let src = ValueLocation::Reg(g);
        assert(held.push(src)[held.len() as int].valid());
        let s1 = s.copy_value(src, ValueLocation::Reg(dst));
        lemma_owns_code(s, s1, held.push(src));
        lemma_owns_free(s1, held, src);
        let s2 = s1.release(g);
        lemma_owns_mark_used(s2, held, dst);
        lemma_owns_reorder(s2.mark_used(dst), held.push(ValueLocation::Reg(dst)), held);
    }
}

/// Dividing two values in hand: the operands are brought to their places.
proof fn lemma_operands_placed(
    s: State,
    m: Machine,
    from: Seq<Insn>,
    divisor: ValueLocation,
    dividend: ValueLocation,
)
    requires
        s.reached(m, from),
        s.owns(two(divisor, dividend)),
        ({
            let (s1, placed) = s.place_divisor(divisor);
            let (s2, saved) = s1.place_dividend(dividend);
            s2.ok && saved.rax != Some(rdx())
        }),
    ensures
        ({
            let (s1, placed) = s.place_divisor(divisor);
            let (t, saved) = s1.place_dividend(dividend);
            let before = ran(m, from, s.code);
            let n = ran(m, from, t.code);
            &&& s.ok
            &&& t.reached(m, from)
            &&& t == (State { code: t.code, regs: t.regs, ..s })
            &&& !(placed is Immediate)
            &&& placed.valid()
            &&& placed != ValueLocation::Reg(rax())
            &&& placed != ValueLocation::Reg(rdx())
            &&& t.owns(
                hold(hold(two(placed, ValueLocation::Reg(rax())), saved.rax), saved.rdx),
            )
            &&& saved.rax is Some ==> t.regs.count(rax()) > 1
            &&& saved.rdx is Some ==> t.regs.count(rdx()) > 0
            &&& n.gpr(rax()) == s.value_of(before, dividend)
            &&& t.value_of(n, placed) == s.value_of(before, divisor)
            &&& n.mem == before.mem
            &&& n.rsp == before.rsp
            &&& saved_well(s, none(), before, n, dividend, saved)
            &&& forall|g: GPR|
                g.valid() && g != rax() && s.known_uses(none(), g) > 0 ==> #[trigger] n.gpr(g)
                    == before.gpr(g)
        }),
{
    broadcast use lemma_uses_push;

    let before = ran(m, from, s.code);
    let (s1, placed) = s.place_divisor(divisor);
    let (t, saved) = s1.place_dividend(dividend);
    assert(s1.ok);
    lemma_owns_reorder(s, two(divisor, dividend), two(dividend, divisor));
    lemma_place_divisor(s, m, from, dividend, divisor);
    lemma_owns_reorder(s1, two(dividend, placed), two(placed, dividend));
    assert(two(placed, dividend)[0].valid());
    assert(two(placed, dividend)[1].valid());
    lemma_place_dividend(s1, m, from, placed, dividend);
    let n1 = ran(m, from, s1.code);
    let n = ran(m, from, t.code);
    assert(s1.value_of(n1, dividend) == s.value_of(before, dividend)) by {
        if dividend is Reg {
            assert(s.known_uses(one(dividend), dividend->Reg_0) > 0);
            assert(n1.gpr(dividend->Reg_0) == before.gpr(dividend->Reg_0));
        }
    }
    assert(t.value_of(n, placed) == s1.value_of(n1, placed)) by {
        if placed is Reg {
            assert(s1.known_uses(one(placed), placed->Reg_0) > 0);
            assert(n.gpr(placed->Reg_0) == n1.gpr(placed->Reg_0));
        }
    }
    assert(n1.gpr(rax()) == before.gpr(rax()));
    assert(n1.gpr(rdx()) == before.gpr(rdx()));
    assert forall|g: GPR|
        g.valid() && g != rax() && s.known_uses(none(), g) > 0 implies #[trigger] n.gpr(
        g,
    ) == before.gpr(g) by {
        assert(s.known_uses(one(dividend), g) > 0);
        assert(n1.gpr(g) == before.gpr(g));
        assert(s1.known_uses(one(placed), g) > 0);
    }
}

/// Dividing two values in hand.
proof fn lemma_full_div(
    s: State,
    m: Machine,
    from: Seq<Insn>,
    sign: bool,
    w: Width,
    divisor: ValueLocation,
    dividend: ValueLocation,
)
    requires
        s.reached(m, from),
        w is D || w is Q,
        s.owns(two(divisor, dividend)),
        s.full_div(sign, w, divisor, dividend).0.ok,
        s.full_div(sign, w, divisor, dividend).1.rax != Some(rdx()),
    ensures
        ({
            let (t, saved) = s.full_div(sign, w, divisor, dividend);
            let before = ran(m, from, s.code);
            let n = ran(m, from, t.code);
            let a = s.value_of(before, dividend);
            let b = s.value_of(before, divisor);
            &&& s.ok
            &&& grown(from, t.code)
            &&& t == (State { code: t.code, regs: t.regs, ..s })
            &&& t.owns(
                hold(
                    hold(two(ValueLocation::Reg(rax()), ValueLocation::Reg(rdx())), saved.rax),
                    saved.rdx,
                ),
            )
            &&& saved.rax is Some ==> t.regs.count(rax()) > 1
            &&& saved.rdx is Some ==> t.regs.count(rdx()) > 1
            &&& if division_traps(sign, w, a, b) {
                n.next is Trap
            } else {
                &&& t.reached(m, from)
                &&& n.gpr(rax()) == quotient_value(sign, w, a, b)
                &&& n.gpr(rdx()) == remainder_value(sign, w, a, b)
                &&& n.mem == before.mem
                &&& n.rsp == before.rsp
                &&& saved_well(s, none(), before, n, dividend, saved)
                &&& forall|g: GPR|
                    g.valid() && g != rax() && g != rdx() && s.known_uses(none(), g) > 0
                        ==> #[trigger] n.gpr(g) == before.gpr(g)
            }
        }),
{
    reveal(State::full_div);
    let (s1, placed) = s.place_divisor(divisor);
    let (s2, saved) = s1.place_dividend(dividend);
    let s3 = s2.divide(sign, w, placed);
    let s4 = s3.free_value(placed);
    assert(s2.ok && s3.ok && s4.ok);
    lemma_operands_placed(s, m, from, divisor, dividend);
    lemma_divide(s2, m, from, sign, w, placed);
    lemma_division_accounts(s2, s3, placed, saved);
    let before = ran(m, from, s.code);
    let n2 = ran(m, from, s2.code);
    let n3 = ran(m, from, s3.code);
    let a = s.value_of(before, dividend);
    let b = s.value_of(before, divisor);
    if !division_traps(sign, w, a, b) {
        assert forall|g: GPR| g.valid() && g != rax() && g != rdx() implies #[trigger] n3.gpr(g)
            == n2.gpr(g) by {}
        assert(saved_well(s, none(), before, n3, dividend, saved));
    }
}

proof fn lemma_division_accounts(s: State, divided: State, placed: ValueLocation, saved: Saved)
    requires
        s.owns(hold(hold(two(placed, ValueLocation::Reg(rax())), saved.rax), saved.rdx)),
        placed != ValueLocation::Reg(rax()),
        placed != ValueLocation::Reg(rdx()),
        divided == (State { code: divided.code, ..s }),
        divided.free_value(placed).mark_used(rdx()).ok,
    ensures
        ({
            let t = divided.free_value(placed).mark_used(rdx());
            &&& t.regs.count(rax()) == s.regs.count(rax())
            &&& t.regs.count(rdx()) == s.regs.count(rdx()) + 1
            &&& t.owns(
                hold(
                    hold(two(ValueLocation::Reg(rax()), ValueLocation::Reg(rdx())), saved.rax),
                    saved.rdx,
                ),
            )
        }),
{
    broadcast use {lemma_uses_push, lemma_uses_hold};

    let a = ValueLocation::Reg(rax());
    let x = ValueLocation::Reg(rdx());
    let s4 = divided.free_value(placed);
    let t = s4.mark_used(rdx());
    let h = hold(hold(two(placed, a), saved.rax), saved.rdx);
    let h4 = hold(hold(one(a), saved.rax), saved.rdx);
    lemma_owns_code(s, divided, h);
    lemma_owns_reorder(divided, h, h4.push(placed));
    lemma_owns_free(divided, h4, placed);
    lemma_owns_mark_used(s4, h4, rdx());
    lemma_owns_reorder(t, h4.push(x), hold(hold(two(a, x), saved.rax), saved.rdx));
    lemma_counts_after_division(divided, h4, placed);
}

proof fn lemma_counts_after_division(s: State, held: Seq<ValueLocation>, placed: ValueLocation)
    requires
        s.owns(held.push(placed)),
        placed != ValueLocation::Reg(rax()),
        placed != ValueLocation::Reg(rdx()),
        s.free_value(placed).regs.count(rdx()) < u8::MAX,
    ensures
        s.free_value(placed).mark_used(rdx()).regs.count(rax()) == s.regs.count(rax()),
        s.free_value(placed).mark_used(rdx()).regs.count(rdx()) == s.regs.count(rdx()) + 1,
{
    broadcast use {lemma_uses_push, lemma_count_mark_used, lemma_count_release};

    assert(held.push(placed)[held.len() as int].valid());
    if placed is Reg {
        assert(s.regs.count(placed->Reg_0) >= s.known_uses(held.push(placed), placed->Reg_0));
    }
}

/// The result is brought to a register of its own, and `rax` and `rdx` get back what was saved.
proof fn lemma_result_brought(
    s: State,
    m: Machine,
    from: Seq<Insn>,
    res: GPR,
    old: Option<GPR>,
    saved: Saved,
)
    requires
        s.reached(m, from),
        res == rax() && old == saved.rax || res == rdx() && old == saved.rdx,
        s.owns(hold(hold(one(ValueLocation::Reg(res)), saved.rax), saved.rdx)),
        saved.rax is Some ==> saved.rax->0 is Rq && saved.rax->0 != rax() && saved.rax->0 != rdx()
            && !s.regs.is_free(rax()),
        saved.rdx is Some ==> saved.rdx->0 is Rq && saved.rdx->0 != rax() && saved.rdx->0 != rdx()
            && !s.regs.is_free(rdx()),
        saved.rax is Some ==> saved.rdx != saved.rax,
        s.push_result(res, old, saved).ok,
    ensures
        ({
            let (s1, out) = s.move_result(res, old);
            let t = s1.restore_all(saved);
            let before = ran(m, from, s.code);
            let n = ran(m, from, t.code);
            &&& out is Rq
            &&& out.valid()
            &&& t.reached(m, from)
            &&& t == (State { code: t.code, regs: t.regs, ..s })
            &&& t.owns(one(ValueLocation::Reg(out)))
            &&& n.mem == before.mem
            &&& n.rsp == before.rsp
            &&& n.gpr(out) == before.gpr(res)
            &&& saved.rax is Some ==> n.gpr(rax()) == before.gpr(saved.rax->0)
            &&& saved.rdx is Some ==> n.gpr(rdx()) == before.gpr(saved.rdx->0)
            &&& forall|g: GPR|
                g.valid() && g != rax() && g != rdx() && s.known_uses(none(), g) > 0
                    ==> #[trigger] n.gpr(g) == before.gpr(g)
        }),
{
    broadcast use {lemma_uses_push, lemma_uses_hold};

    reveal(State::push_result);
    let r = ValueLocation::Reg(res);
    let before = ran(m, from, s.code);
    let h = hold(hold(none(), saved.rax), saved.rdx);
    lemma_owns_reorder(s, hold(hold(one(r), saved.rax), saved.rdx), h.push(r));
    let (s1, out) = s.move_result(res, old);
    let s2 = s1.restore(saved.rax, rax());
    let t = s2.restore(saved.rdx, rdx());
    assert(t.ok && s2.ok && s1.ok);
    lemma_move_result(s, m, from, h, res, old);
    let o = ValueLocation::Reg(out);
    if old is Some {
        lemma_fresh_differs(s, old, res, out);
    }
    let h1 = hold(one(o), saved.rdx);
    lemma_owns_reorder(s1, h.push(o), hold(h1, saved.rax));
    lemma_restore(s1, m, from, h1, saved.rax, rax());
    lemma_restore(s2, m, from, one(o), saved.rdx, rdx());
    let n1 = ran(m, from, s1.code);
    let n2 = ran(m, from, s2.code);
    let n = ran(m, from, t.code);
    if saved.rax is Some {
        assert(s.known_uses(h.push(r), saved.rax->0) > 0);
        assert(n1.gpr(saved.rax->0) == before.gpr(saved.rax->0));
    }
    if saved.rdx is Some {
        assert(s.known_uses(h.push(r), saved.rdx->0) > 0);
        assert(n1.gpr(saved.rdx->0) == before.gpr(saved.rdx->0));
        assert(n2.gpr(saved.rdx->0) == n1.gpr(saved.rdx->0));
    }
    assert forall|g: GPR|
        g.valid() && g != rax() && g != rdx() && s.known_uses(none(), g) > 0
        implies #[trigger] n.gpr(g) == before.gpr(g) by {
        assert(s.known_uses(h.push(r), g) > 0);
        assert(n1.gpr(g) == before.gpr(g));
        assert(n2.gpr(g) == n1.gpr(g));
    }
}

/// A register that was just taken was free.
proof fn lemma_fresh_differs(s: State, old: Option<GPR>, res: GPR, out: GPR)
    requires
        s.regs.wf(),
        old is Some,
        s.move_result(res, old).0.ok,
        out == s.move_result(res, old).1,
    ensures
        s.regs.is_free(out),
{
    lemma_lowest_free(s.regs, GPRType::Rq);
}

/// Whether a division brings its operands to their places without losing a value: no other
/// value may be in `rax` along with the dividend, and what else is in `rax` must not be saved in
/// `rdx`, which the division overwrites.
pub open spec fn divides_well(s: State, sign: bool, w: Width) -> bool {
    let divisor = s.stack[s.stack.len() - 1];
    let dividend = s.stack[s.stack.len() - 2];
    let rest = s.with_stack(s.stack.take(s.stack.len() - 2));
    &&& dividend == ValueLocation::Reg(rax()) ==> uses(rest.stack, rax()) == 0
    &&& rest.full_div(sign, w, divisor, dividend).1.rax != Some(rdx())
}

/// A division of values in hand. The values below are those of `s`.
proof fn lemma_division(
    s: State,
    u: State,
    m: Machine,
    sign: bool,
    w: Width,
    divisor: ValueLocation,
    dividend: ValueLocation,
    rem: bool,
)
    requires
        s.at(m),
        w is D || w is Q,
        s.stack.len() >= 2,
        u.stack == s.stack.take(s.stack.len() - 2),
        u.depth == s.depth,
        u.code == s.code,
        u.owns(two(divisor, dividend)),
        dividend == ValueLocation::Reg(rax()) ==> uses(u.stack, rax()) == 0,
        u.full_div(sign, w, divisor, dividend).1.rax != Some(rdx()),
        u.divided_for(sign, w, divisor, dividend, rem).ok,
    ensures
        ({
            let t = u.divided_for(sign, w, divisor, dividend, rem);
            let a = s.value_of(m, dividend);
            let b = s.value_of(m, divisor);
            if division_traps(sign, w, a, b) {
                ran(m, s.code, t.code).next is Trap
            } else {
                s.computes(t, m, 2, w, result_value(sign, w, a, b, rem))
            }
        }),
{
    broadcast use {lemma_ran_nothing, lemma_uses_push};

    let (s3, saved) = u.full_div(sign, w, divisor, dividend);
    let (res, other, old) = if rem {
        (rdx(), rax(), saved.rdx)
    } else {
        (rax(), rdx(), saved.rax)
    };
    let s4 = s3.release(other);
    let t = s4.push_result(res, old, saved);
    assert(s4.ok) by {
        lemma_push_result_ok(s4, res, old, saved);
    }
    assert(s3.ok);
    lemma_full_div(u, m, s.code, sign, w, divisor, dividend);
    let a = s.value_of(m, dividend);
    let b = s.value_of(m, divisor);
    if division_traps(sign, w, a, b) {
        lemma_stuck(s4, m, s.code, res, old, saved);
    } else {
        lemma_release_other(s3, res, other, saved);
        lemma_result_brought(s4, m, s.code, res, old, saved);
        let (s5, out) = s4.move_result(res, old);
        let s6 = s5.restore_all(saved);
        assert(t == s6.push(ValueLocation::Reg(out))) by {
            reveal(State::push_result);
        }
        lemma_division_frame(
            u,
            m,
            ran(m, s.code, s3.code),
            ran(m, s.code, s6.code),
            dividend,
            saved,
        );
        lemma_push_result(s, s6, m, 2, ValueLocation::Reg(out));
    }
}

/// All that is in use is as it was before the division.
proof fn lemma_division_frame(
    s: State,
    m: Machine,
    divided: Machine,
    n: Machine,
    dividend: ValueLocation,
    saved: Saved,
)
    requires
        dividend == ValueLocation::Reg(rax()) ==> uses(s.stack, rax()) == 0,
        saved_well(s, none(), m, divided, dividend, saved),
        forall|g: GPR|
            g.valid() && g != rax() && g != rdx() && s.known_uses(none(), g) > 0
                ==> #[trigger] divided.gpr(g) == m.gpr(g),
        saved.rax is Some ==> n.gpr(rax()) == divided.gpr(saved.rax->0),
        saved.rdx is Some ==> n.gpr(rdx()) == divided.gpr(saved.rdx->0),
        forall|g: GPR|
            g.valid() && g != rax() && g != rdx() && s.known_uses(none(), g) > 0
                ==> #[trigger] n.gpr(g) == divided.gpr(g),
    ensures
        s.same_registers(none(), m, n),
{
    assert forall|g: GPR| g.valid() && s.known_uses(none(), g) > 0 implies #[trigger] n.gpr(g)
        == m.gpr(g) by {
        if g != rax() && g != rdx() {
            assert(divided.gpr(g) == m.gpr(g));
        }
    }
}

/// The quotient or the remainder.
pub open spec fn result_value(sign: bool, w: Width, a: u64, b: u64, rem: bool) -> u64 {
    if rem {
        remainder_value(sign, w, a, b)
    } else {
        quotient_value(sign, w, a, b)
    }
}

impl State {
    /// The state after a division for the quotient or for the remainder.
    pub open spec fn divided_for(
        self,
        sign: bool,
        w: Width,
        divisor: ValueLocation,
        dividend: ValueLocation,
        rem: bool,
    ) -> State {
        let (s, saved) = self.full_div(sign, w, divisor, dividend);
        if rem {
            s.release(rax()).push_result(rdx(), saved.rdx, saved)
        } else {
            s.release(rdx()).push_result(rax(), saved.rax, saved)
        }
    }
}

/// Whether both values on top of the stack are constants of `w` bits.
pub open spec fn both_constant(s: State, w: Width) -> bool {
    is_const_of(w, s.stack[s.stack.len() - 1]) && is_const_of(w, s.stack[s.stack.len() - 2])
}

proof fn lemma_division_of_constants(s: State, m: Machine, sign: bool, w: Width, rem: bool)
    requires
        s.at(m),
        w is D || w is Q,
        s.stack.len() >= 2,
        both_constant(s, w),
        !overflows(sign, w, s.top(m, 1), s.top(m, 0)),
    ensures
        ({
            let t = if rem {
                s.rem(sign, w)
            } else {
                s.div(sign, w)
            };
            let a = s.top(m, 1);
            let b = s.top(m, 0);
            if division_traps(sign, w, a, b) {
                ran(m, s.code, t.code).next is Trap
            } else {
                s.computes(t, m, 2, w, result_value(sign, w, a, b, rem))
            }
        }),
{
    broadcast use {lemma_ran_push, lemma_ran_nothing};

    let len = s.stack.len() as int;
    let divisor = s.stack[len - 1]->Immediate_0;
    let dividend = s.stack[len - 2]->Immediate_0;
    assert(s.stack.drop_last().drop_last() =~= s.stack.take(len - 2));
    if divisor == zero_of(w) {
        lemma_all_ones();
    } else {
        lemma_constant_division(sign, w, dividend, divisor);
        if rem {
            lemma_push_folded(
                s,
                m,
                2,
                s.rem(sign, w),
                remainder_of(sign, dividend, divisor)->0,
            );
        } else {
            lemma_push_folded(
                s,
                m,
                2,
                s.div(sign, w),
                quotient_of(sign, dividend, divisor),
            );
        }
    }
}

/// The divisions trap if the divisor is zero or the quotient is too large, and leave the
/// quotient on the stack otherwise. A quotient of constants that is too large is the one thing
/// that does not trap: it wraps around.
pub proof fn division(s: State, m: Machine, sign: bool, w: Width)
    requires
        s.at(m),
        s.div(sign, w).ok,
        w is D || w is Q,
        if both_constant(s, w) {
            !overflows(sign, w, s.top(m, 1), s.top(m, 0))
        } else {
            divides_well(s, sign, w)
        },
    ensures
        ({
            let t = s.div(sign, w);
            let a = s.top(m, 1);
            let b = s.top(m, 0);
            if division_traps(sign, w, a, b) {
                ran(m, s.code, t.code).next is Trap
            } else {
                s.computes(t, m, 2, w, quotient_value(sign, w, a, b))
            }
        }),
{
    let len = s.stack.len() as int;
    let (s1, divisor) = s.pop();
    let (s2, dividend) = s1.pop();
    let rest = s.with_stack(s.stack.take(len - 2));
    lemma_division_pops(s, sign, w);
    assert(s2.stack =~= rest.stack);
    assert(s2 == rest);
    if both_constant(s, w) {
        lemma_division_of_constants(s, m, sign, w, false);
    } else {
        lemma_owns_pop(s, none());
        lemma_owns_pop(s1, one(divisor));
        assert(s.div(sign, w) == s2.divided_for(sign, w, divisor, dividend, false));
        lemma_division(s, s2, m, sign, w, divisor, dividend, false);
    }
}

/// The remainders trap just as the divisions do, and leave the remainder on the stack
/// otherwise.
pub proof fn division_remainder(s: State, m: Machine, sign: bool, w: Width)
    requires
        s.at(m),
        s.rem(sign, w).ok,
        w is D || w is Q,
        if both_constant(s, w) {
            !overflows(sign, w, s.top(m, 1), s.top(m, 0))
        } else {
            divides_well(s, sign, w)
        },
    ensures
        ({
            let t = s.rem(sign, w);
            let a = s.top(m, 1);
            let b = s.top(m, 0);
            if division_traps(sign, w, a, b) {
                ran(m, s.code, t.code).next is Trap
            } else {
                s.computes(t, m, 2, w, remainder_value(sign, w, a, b))
            }
        }),
{
    let len = s.stack.len() as int;
    let (s1, divisor) = s.pop();
    let (s2, dividend) = s1.pop();
    let rest = s.with_stack(s.stack.take(len - 2));
    lemma_division_pops(s, sign, w);
    assert(s2.stack =~= rest.stack);
    assert(s2 == rest);
    if both_constant(s, w) {
        lemma_division_of_constants(s, m, sign, w, true);
    } else {
        lemma_owns_pop(s, none());
        lemma_owns_pop(s1, one(divisor));
        assert(s.rem(sign, w) == s2.divided_for(sign, w, divisor, dividend, true));
        lemma_division(s, s2, m, sign, w, divisor, dividend, true);
    }
}

/// What dividing two constants gives.
proof fn lemma_constant_division(sign: bool, w: Width, a: Value, b: Value)
    requires
        w is D && a is I32 && b is I32 || w is Q && a is I64 && b is I64,
        b != zero_of(w),
        !overflows(sign, w, a.as_bytes() as u64, b.as_bytes() as u64),
    ensures
        trunc(w, quotient_of(sign, a, b).as_bytes() as u64) == quotient_value(
            sign,
            w,
            a.as_bytes() as u64,
            b.as_bytes() as u64,
        ),
        remainder_of(sign, a, b) is Some,
        trunc(w, remainder_of(sign, a, b)->0.as_bytes() as u64) == remainder_value(
            sign,
            w,
            a.as_bytes() as u64,
            b.as_bytes() as u64,
        ),
        trunc(w, b.as_bytes() as u64) != 0,
{
    match (a, b) {
        (Value::I32(x), Value::I32(y)) => {
            lemma_i32_bytes(x);
            lemma_i32_bytes(y);
            lemma_i32_as_u32(y);
            lemma_i32_of_bytes(x);
            lemma_i32_of_bytes(y);
            if sign {
                lemma_constants_i32(x, y);
                let q = x.checked_div(y)->0;
                let r = x.checked_rem(y)->0;
                lemma_i32_bytes(q);
                lemma_i32_bytes(r);
                lemma_i32_wide(q);
                lemma_i32_wide(r);
            } else {
                lemma_count_bytes(x as u32 / y as u32);
                lemma_count_bytes(x as u32 % y as u32);
            }
        },
        (Value::I64(x), Value::I64(y)) => {
            lemma_i64_as_u64(y);
            lemma_i64_views(x);
            lemma_i64_views(y);
            if sign {
                lemma_constants_i64(x, y);
            } else {
                lemma_u64_views(x as u64 / y as u64);
                lemma_u64_views(x as u64 % y as u64);
            }
        },
        _ => {},
    }
}

proof fn lemma_constants_i32(x: i32, y: i32)
    requires
        y != 0,
        !(x == i32::MIN && y == -1),
    ensures
        x.checked_div(y) is Some,
        x.checked_div(y)->0 == quotient(x as int, y as int),
        x.checked_rem(y) is Some,
        x.checked_rem(y)->0 == remainder(x as int, y as int),
{
    lemma_rounding(x as int, y as int);
    if x == 0 {
    } else if x > 0 && y > 0 {
    } else if x < 0 && y < 0 {
    } else if x < 0 {
    } else {
    }
}

proof fn lemma_constants_i64(x: i64, y: i64)
    requires
        y != 0,
        !(x == i64::MIN && y == -1),
    ensures
        x.checked_div(y) is Some,
        x.checked_div(y)->0 == quotient(x as int, y as int),
        x.checked_rem(y) is Some,
        x.checked_rem(y)->0 == remainder(x as int, y as int),
{
    lemma_rounding(x as int, y as int);
    if x == 0 {
    } else if x > 0 && y > 0 {
    } else if x < 0 && y < 0 {
    } else if x < 0 {
    } else {
    }
}

/// The remainder has the sign of the dividend.
proof fn lemma_rounding(x: int, d: int)
    requires
        d != 0,
    ensures
        remainder(x, d) == (if x >= 0 {
            abs(x) % abs(d)
        } else {
            -(abs(x) % abs(d))
        }),
        0 <= abs(x) / abs(d) <= abs(x),
        0 <= abs(x) % abs(d) < abs(d),
        abs(d) > 1 && x != 0 ==> abs(x) / abs(d) < abs(x),
{
    let (p, q) = (abs(x), abs(d));
    vstd::arithmetic::div_mod::lemma_fundamental_div_mod(p, q);
    vstd::arithmetic::div_mod::lemma_mod_bound(p, q);
    vstd::arithmetic::div_mod::lemma_div_pos_is_pos(p, q);
    vstd::arithmetic::div_mod::lemma_div_is_ordered_by_denominator(p, 1, q);
    vstd::arithmetic::div_mod::lemma_div_basics(p);
    if q > 1 && p > 0 {
        vstd::arithmetic::div_mod::lemma_div_decreases(p, q);
    }
    let k = p / q;
    assert((-k) * q == -(q * k) && k * (-q) == -(q * k) && (-k) * (-q) == q * k && k * q == q * k)
        by (nonlinear_arith);
}

/// After a trap the machine does nothing.
proof fn lemma_stuck(
    s: State,
    m: Machine,
    from: Seq<Insn>,
    res: GPR,
    old: Option<GPR>,
    saved: Saved,
)
    requires
        grown(from, s.code),
        ran(m, from, s.code).next is Trap,
    ensures
        ran(m, from, s.push_result(res, old, saved).code).next is Trap,
{
    broadcast use lemma_ran_push;

    reveal(State::push_result);
}

proof fn lemma_release_other(s: State, res: GPR, other: GPR, saved: Saved)
    requires
        res == rax() && other == rdx() || res == rdx() && other == rax(),
        s.owns(
            hold(
                hold(two(ValueLocation::Reg(rax()), ValueLocation::Reg(rdx())), saved.rax),
                saved.rdx,
            ),
        ),
        saved.rax is Some ==> s.regs.count(rax()) > 1,
        saved.rdx is Some ==> s.regs.count(rdx()) > 1,
    ensures
        s.release(other).owns(hold(hold(one(ValueLocation::Reg(res)), saved.rax), saved.rdx)),
        saved.rax is Some ==> !s.release(other).regs.is_free(rax()),
        saved.rdx is Some ==> !s.release(other).regs.is_free(rdx()),
{
    broadcast use {lemma_uses_push, lemma_uses_hold, lemma_count_release};

    let a = ValueLocation::Reg(rax());
    let x = ValueLocation::Reg(rdx());
    let r = ValueLocation::Reg(res);
    let h = hold(hold(one(r), saved.rax), saved.rdx);
    lemma_owns_reorder(
        s,
        hold(hold(two(a, x), saved.rax), saved.rdx),
        h.push(ValueLocation::Reg(other)),
    );
    lemma_owns_free(s, h, ValueLocation::Reg(other));
    assert(s.regs.count(other) >= s.known_uses(h.push(ValueLocation::Reg(other)), other));
}

} // verus!
