//! Labels and branches.

use vstd::prelude::*;

use crate::assembly::{Label, PendingLabel};
use crate::bits::lemma_u64_views;
use crate::branches::{is_const, lemma_jumps_ok, shared_code, SharedLabel};
use crate::insn::{Cond, Insn, LocalLabel, Operand, Width};
use crate::laws::arith::lemma_owns_code;
use crate::laws::{lemma_same_values_of, none, one};
use crate::location::ValueLocation;
use crate::machine::{product, Control, Machine};
use crate::microwasm::{BrTarget, Value};
use crate::ownership::{
    lemma_owns_forget, lemma_owns_free, lemma_owns_pop, lemma_uses_push, taken_is_unused,
};
use crate::registers::{rq, GPRType, RegId, GPR};
use crate::simulation::{
    copy_to_register, grown, lemma_into_reg, lemma_into_temp_reg, lemma_ran_nothing, lemma_ran_on,
    lemma_ran_push, lemma_same_table, ran,
};
use crate::state::State;

verus! {

/// A label that is created differs from all that were created before. No code is emitted, and
/// what is known of the values and the registers stays as it is.
pub proof fn labels_are_fresh(s: State, earlier: Label)
    requires
        earlier.id < s.label_count,
        s.create_label().0.ok,
    ensures
        s.create_label().1 != earlier,
        s.create_label().1.id < s.create_label().0.label_count,
        s.create_label().0 == (State { label_count: (s.label_count + 1) as usize, ..s }),
        earlier.id < s.create_label().0.label_count,
{
}

/// Asking for a shared label twice gives the same label, and the second time changes nothing.
pub proof fn shared_label_is_shared(s: State, which: SharedLabel)
    ensures
        s.shared_label(which).0.shared_label(which) == s.shared_label(which),
        s.shared_label(which).0.labels.get(which) is Some,
        s.shared_label(which).0.labels.get(which)->0.label == s.shared_label(which).1,
{
}

/// Asking for one shared label leaves the others as they are.
pub proof fn shared_labels_are_separate(s: State, which: SharedLabel, other: SharedLabel)
    requires
        which != other,
    ensures
        s.shared_label(which).0.labels.get(other) == s.labels.get(other),
{
}

impl State {
    /// Whether a shared label is defined if anything needs it.
    pub open spec fn settled(self, which: SharedLabel) -> bool {
        self.labels.get(which) is Some ==> self.labels.get(which)->0.is_defined
    }

    /// Whether a shared label is settled, and its code was added after `first` if it was needed
    /// and not defined there.
    pub open spec fn finished(self, first: State, which: SharedLabel) -> bool {
        &&& self.settled(which)
        &&& first.labels.get(which) is Some && !first.labels.get(which)->0.is_defined
            ==> self.defines(
            first.code.len() as int,
            first.labels.get(which)->0.label,
            shared_code(which),
            is_const(which),
        )
    }

    /// Whether the code from `start` on defines `label` and has `code` there, at a multiple of 16
    /// bytes if `aligned`.
    pub open spec fn defines(
        self,
        start: int,
        label: Label,
        code: Seq<Insn>,
        aligned: bool,
    ) -> bool {
        exists|k: int|
            #![trigger self.code[k]]
            start <= k && k + 1 + code.len() <= self.code.len() && self.code[k]
                == Insn::DefineLabel(label) && self.code.subrange(k + 1, k + 1 + code.len())
                == code && (aligned ==> start < k && self.code[k - 1] == Insn::Align(16))
    }
}

/// Defining a shared label: its code stands at it from then on.
pub proof fn defining_shared(s: State, which: SharedLabel)
    ensures
        ({
            let t = s.define_shared(which);
            &&& t.settled(which)
            &&& grown(s.code, t.code)
            &&& forall|other: SharedLabel|
                other != which ==> #[trigger] t.labels.get(other) == s.labels.get(other)
            &&& s.labels.get(which) is Some ==> t.labels.get(which)->0.label == s.labels.get(
                which,
            )->0.label
            &&& s.labels.get(which) is None ==> t == s
            &&& s.labels.get(which) is Some && !s.labels.get(which)->0.is_defined ==> t.defines(
                s.code.len() as int,
                s.labels.get(which)->0.label,
                shared_code(which),
                is_const(which),
            )
            &&& t.define_shared(which) == t
        }),
{
    if let Some(PendingLabel { label, is_defined: false }) = s.labels.get(which) {
        let s1 = if is_const(which) {
            s.emit(Insn::Align(16))
        } else {
            s
        };
        let t = s.define_shared(which);
        let code = shared_code(which);
        let k = s1.code.len() as int;
        assert(t.code =~= s1.code.push(Insn::DefineLabel(label)) + code);
        assert(t.code[k] == Insn::DefineLabel(label));
        assert(is_const(which) ==> t.code[k - 1] == Insn::Align(16));
        assert(t.code.subrange(k + 1, k + 1 + code.len()) =~= code);
    }
}

/// What was defined stays defined when code is added.
proof fn lemma_defines_grown(
    s: State,
    t: State,
    start: int,
    label: Label,
    code: Seq<Insn>,
    aligned: bool,
)
    requires
        s.defines(start, label, code, aligned),
        grown(s.code, t.code),
        start >= 0,
    ensures
        t.defines(start, label, code, aligned),
{
    let k = choose|k: int|
        #![trigger s.code[k]]
        start <= k && k + 1 + code.len() <= s.code.len() && s.code[k] == Insn::DefineLabel(label)
            && s.code.subrange(k + 1, k + 1 + code.len()) == code && (aligned ==> start < k
            && s.code[k - 1] == Insn::Align(16));
    assert(t.code[k] == s.code[k]);
    assert(start < k ==> t.code[k - 1] == s.code[k - 1]);
    assert(t.code.subrange(k + 1, k + 1 + code.len()) =~= s.code.subrange(
        k + 1,
        k + 1 + code.len(),
    )) by {
        assert forall|i: int| k + 1 <= i < k + 1 + code.len() implies t.code[i] == s.code[i] by {}
    }
}

proof fn lemma_defines_earlier(
    s: State,
    start: int,
    later: int,
    label: Label,
    code: Seq<Insn>,
    aligned: bool,
)
    requires
        s.defines(later, label, code, aligned),
        start <= later,
    ensures
        s.defines(start, label, code, aligned),
{
}

/// One step of the epilogue: what the steps before it settled stays settled.
proof fn lemma_epilogue_step(
    s: State,
    which: SharedLabel,
    first: State,
    seen: spec_fn(SharedLabel) -> bool,
)
    requires
        grown(first.code, s.code),
        !seen(which),
        s.labels.get(which) == first.labels.get(which),
        forall|w: SharedLabel| seen(w) ==> #[trigger] s.finished(first, w),
    ensures
        ({
            let t = s.define_shared(which);
            &&& grown(first.code, t.code)
            &&& forall|w: SharedLabel|
                seen(w) || w == which ==> #[trigger] t.finished(first, w)
            &&& forall|w: SharedLabel|
                w != which ==> #[trigger] t.labels.get(w) == s.labels.get(w)
        }),
{
    let t = s.define_shared(which);
    defining_shared(s, which);
    assert forall|w: SharedLabel| seen(w) || w == which implies #[trigger] t.finished(first, w) by {
        let wanted = first.labels.get(w) is Some && !first.labels.get(w)->0.is_defined;
        if w == which {
            if wanted {
                lemma_defines_earlier(
                    t,
                    first.code.len() as int,
                    s.code.len() as int,
                    first.labels.get(w)->0.label,
                    shared_code(w),
                    is_const(w),
                );
            }
        } else {
            assert(s.finished(first, w));
            assert(s.labels.get(w) == t.labels.get(w));
            if wanted {
                lemma_defines_grown(
                    s,
                    t,
                    first.code.len() as int,
                    first.labels.get(w)->0.label,
                    shared_code(w),
                    is_const(w),
                );
            }
        }
    }
}

/// The epilogue defines every shared label that is needed and was not defined, with its code.
pub proof fn epilogue_defines(s: State, which: SharedLabel)
    ensures
        s.epilogue().settled(which),
        grown(s.code, s.epilogue().code),
        s.labels.get(which) is Some && !s.labels.get(which)->0.is_defined
            ==> s.epilogue().defines(
            s.code.len() as int,
            s.labels.get(which)->0.label,
            shared_code(which),
            is_const(which),
        ),
{
    let s1 = s.define_shared(SharedLabel::Trap);
    let s2 = s1.define_shared(SharedLabel::Ret);
    let s3 = s2.define_shared(SharedLabel::NegF32);
    let s4 = s3.define_shared(SharedLabel::NegF64);
    let s5 = s4.define_shared(SharedLabel::AbsF32);
    let s6 = s5.define_shared(SharedLabel::AbsF64);
    lemma_epilogue_step(s, SharedLabel::Trap, s, |w: SharedLabel| false);
    lemma_epilogue_step(s1, SharedLabel::Ret, s, |w: SharedLabel| w is Trap);
    lemma_epilogue_step(s2, SharedLabel::NegF32, s, |w: SharedLabel| w is Trap || w is Ret);
    lemma_epilogue_step(
        s3,
        SharedLabel::NegF64,
        s,
        |w: SharedLabel| w is Trap || w is Ret || w is NegF32,
    );
    lemma_epilogue_step(
        s4,
        SharedLabel::AbsF32,
        s,
        |w: SharedLabel| w is Trap || w is Ret || w is NegF32 || w is NegF64,
    );
    lemma_epilogue_step(
        s5,
        SharedLabel::AbsF64,
        s,
        |w: SharedLabel| w is Trap || w is Ret || w is NegF32 || w is NegF64 || w is AbsF32,
    );
    assert(s6.finished(s, which));
}

/// A second epilogue adds nothing.
pub proof fn epilogue_twice(s: State)
    ensures
        s.epilogue().epilogue() == s.epilogue(),
{
    epilogue_defines(s, SharedLabel::Trap);
    epilogue_defines(s, SharedLabel::Ret);
    epilogue_defines(s, SharedLabel::NegF32);
    epilogue_defines(s, SharedLabel::NegF64);
    epilogue_defines(s, SharedLabel::AbsF32);
    epilogue_defines(s, SharedLabel::AbsF64);
}

/// A branch goes to its label, or back to the caller.
pub proof fn branching(s: State, m: Machine, target: BrTarget<Label>)
    requires
        s.at(m),
    ensures
        ran(m, s.code, s.br(target).code).next == (match target {
            BrTarget::Label(label) => Control::Jump(label),
            BrTarget::Return => Control::Return,
        }),
{
    broadcast use {lemma_ran_push, lemma_ran_nothing};

}

/// A trap traps.
pub proof fn trapping(s: State, m: Machine)
    requires
        s.at(m),
    ensures
        ran(m, s.code, s.emit(Insn::Ud2).code).next is Trap,
{
    broadcast use {lemma_ran_push, lemma_ran_nothing};

}

/// A conditional branch on the value in hand goes to the label if the comparison of its lower
/// half with zero gives the condition. Otherwise the code after it runs, with all values on the
/// stack as they were.
pub proof fn branching_if(s: State, m: Machine, val: ValueLocation, label: Label, cond: Cond)
    requires
        s.ok,
        s.owns(one(val)),
        m.wf(),
        m.next is Next,
        cond is E || cond is Ne,
        s.br_if_end(val, label, cond).ok,
    ensures
        ({
            let t = s.br_if_end(val, label, cond);
            let n = ran(m, s.code, t.code);
            let zero = s.value_of(m, val) as u32 == 0;
            &&& t.accounted()
            &&& t.stack == s.stack
            &&& t.depth == s.depth
            &&& n.next == (if zero == (cond is E) {
                Control::Jump(label)
            } else {
                Control::Next
            })
            &&& s.same_values(none(), m, n)
        }),
{
    broadcast use {lemma_ran_push, lemma_ran_nothing, lemma_uses_push};

    let (s1, reg) = s.into_reg(Some(GPRType::Rq), val);
    let r = ValueLocation::Reg(reg);
    lemma_into_reg(s, m, s.code, none(), Some(GPRType::Rq), val);
    assert(reg.id() != rq::RSP) by {
        assert(one(r)[0].valid());
    }
    lemma_u64_views(s.value_of(m, val));
    let s2 = s1.emit(
        Insn::Test { w: Width::D, left: reg.id(), right: Operand::rq(reg.id()) },
    );
    let s3 = s2.emit(Insn::Jcc { cond, label });
    lemma_owns_code(s1, s3, one(r));
    lemma_owns_free(s3, none(), r);
    let n1 = ran(m, s.code, s1.code);
    let n2 = ran(m, s.code, s2.code);
    assert(n2.flags is Some);
    assert(n2.flags->0.zero == (s.value_of(m, val) as u32 == 0));
    let n = ran(m, s.code, s3.code);
    assert forall|g: GPR| g.valid() && s.known_uses(none(), g) > 0 implies #[trigger] n.gpr(g)
        == m.gpr(g) by {
        assert(n1.gpr(g) == m.gpr(g));
    }
}

/// The two conditional branches pop the same predicate, of which the lower half counts. One goes
/// to the target if it is not zero, the other if it is, so that exactly one of them goes there.
/// The other values stay as they were. No argument is passed here between popping the predicate
/// and testing it.
pub proof fn branching_on_predicate(s: State, m: Machine, target: BrTarget<Label>)
    requires
        s.at(m),
        s.stack.len() > 0,
        ({
            let (s1, val, label) = s.br_if_start(target);
            &&& s1.br_if_end(val, label, Cond::Ne).ok
            &&& s1.br_if_end(val, label, Cond::E).ok
        }),
    ensures
        ({
            let (s1, val, label) = s.br_if_start(target);
            let if_true = s1.br_if_end(val, label, Cond::Ne);
            let if_false = s1.br_if_end(val, label, Cond::E);
            let n = ran(m, s.code, if_true.code);
            let n2 = ran(m, s.code, if_false.code);
            &&& if_true.accounted() && if_false.accounted()
            &&& if_true.stack == s.stack.drop_last()
            &&& if_false.stack == s.stack.drop_last()
            &&& (n.next == Control::Jump(label)) == (s.top(m, 0) as u32 != 0)
            &&& (n2.next == Control::Jump(label)) == (s.top(m, 0) as u32 == 0)
            &&& n.next is Next != n2.next is Next
            &&& forall|i: int|
                0 <= i < s.stack.len() - 1 ==> #[trigger] if_true.value_at(n, i) == s.value_at(m, i)
            &&& forall|i: int|
                0 <= i < s.stack.len() - 1 ==> #[trigger] if_false.value_at(n2, i) == s.value_at(
                    m,
                    i,
                )
        }),
{
    let (s1, val, label) = s.br_if_start(target);
    let if_true = s1.br_if_end(val, label, Cond::Ne);
    let if_false = s1.br_if_end(val, label, Cond::E);
    lemma_owns_pop(s, none());
    lemma_owns_code(s.pop().0, s1, one(val));
    assert(s1.ok);
    branching_if(s1, m, val, label, Cond::Ne);
    branching_if(s1, m, val, label, Cond::E);
    let n = ran(m, s.code, if_true.code);
    let n2 = ran(m, s.code, if_false.code);
    assert forall|i: int| 0 <= i < s.stack.len() - 1 implies #[trigger] if_true.value_at(n, i)
        == s.value_at(m, i) by {
        assert(s.stack[i].valid());
        lemma_same_values_of(s, if_true, m, n, i);
    }
    assert forall|i: int| 0 <= i < s.stack.len() - 1 implies #[trigger] if_false.value_at(n2, i)
        == s.value_at(m, i) by {
        assert(s.stack[i].valid());
        lemma_same_values_of(s, if_false, m, n2, i);
    }
}

/// The jump into a table of jumps, five bytes each, goes to the jump whose number is the
/// selector, or to what follows the table if there are not so many.
pub proof fn entering_table(s: State, m: Machine, selector: RegId, count: usize)
    requires
        s.ok,
        s.owns(one(ValueLocation::Reg(GPR::Rq(selector)))),
        m.wf(),
        m.next is Next,
        count <= u32::MAX,
        s.enter_table(selector, count).ok,
    ensures
        ({
            let n = ran(m, s.code, s.enter_table(selector, count).code);
            let chosen = if m.rq[selector as int] > count {
                count as u64
            } else {
                m.rq[selector as int]
            };
            let t = s.enter_table(selector, count);
            &&& n.next == Control::JumpTo(product(Width::Q, chosen, 5).wrapping_add(m.table))
            &&& t.owns(one(ValueLocation::Reg(GPR::Rq(selector))))
            &&& t == (State { code: t.code, regs: t.regs, ..s })
            &&& n.mem == m.mem
            &&& n.rsp == m.rsp
            &&& forall|g: GPR|
                g.valid() && g != GPR::Rq(selector) && s.known_uses(none(), g) > 0
                    ==> #[trigger] n.gpr(g) == m.gpr(g)
        }),
{
    broadcast use {lemma_ran_push, lemma_ran_nothing, lemma_uses_push};

    let r = ValueLocation::Reg(GPR::Rq(selector));
    let imm = Value::I32(count as u32 as i32);
    let (s1, tmp) = s.take(GPRType::Rq);
    taken_is_unused(s, one(r), GPRType::Rq);
    assert(one(r)[0].valid());
    let rsp = GPR::Rq(rq::RSP);
    let h = one(r).push(ValueLocation::Reg(tmp));
    assert(s1.regs.count(rsp) >= s1.known_uses(h, rsp));
    assert(s1.regs.count(GPR::Rq(selector)) >= s1.known_uses(h, GPR::Rq(selector)));
    copy_to_register(s1, m, s.code, ValueLocation::Immediate(imm), tmp);
    let s2 = s1.immediate_to_reg(tmp, imm);
    let n2 = ran(m, s.code, s2.code);
    crate::bits::lemma_u32_views(count as u32);
    assert(n2.gpr(tmp) == count);
    assert(n2.gpr(GPR::Rq(selector)) == m.rq[selector as int]);
    assert(n2.table == m.table);
    let c = m.rq[selector as int];
    let chosen = if c > count {
        count as u64
    } else {
        c
    };
    let i1 = Insn::Cmp { w: Width::Q, left: Operand::rq(selector), right: Operand::rq(tmp.id()) };
    let i2 = Insn::Cmov { cond: Cond::A, dst: selector, src: Operand::rq(tmp.id()) };
    let i3 = Insn::LeaLocal { dst: tmp.id(), label: LocalLabel::Start };
    let i4 = Insn::LeaTimes5 { dst: selector };
    let n3 = n2.step(i1).step(i2);
    assert(n3.rq[selector as int] == chosen);
    let n4 = n3.step(i3).step(i4);
    assert(n4.rq[selector as int] == product(Width::Q, chosen, 5));
    assert(n4.rq[tmp.id() as int] == m.table);
    let s3 = s2.emit(i1).emit(i2).emit(i3).emit(i4);
    assert(ran(m, s.code, s3.code) == n4);
    let t = s.enter_table(selector, count);
    let n = ran(m, s.code, t.code);
    let s4 = State { regs: s1.regs, ..t };
    lemma_owns_code(s1, s4, h);
    lemma_owns_free(s4, one(r), ValueLocation::Reg(tmp));
    lemma_owns_code(s4.release(tmp), t, one(r));
    assert forall|g: GPR|
        g.valid() && g != GPR::Rq(selector) && s.known_uses(none(), g) > 0 implies #[trigger] n.gpr(
        g,
    ) == m.gpr(g) by {
        assert(g != tmp);
        assert(s1.regs.count(g) >= s1.known_uses(h, g));
        assert(n2.gpr(g) == m.gpr(g));
        assert(n4.gpr(g) == n2.gpr(g));
    }
}

/// The jumps of a table change nothing but the code and the labels.
proof fn lemma_jumps_only(s: State, targets: Seq<BrTarget<Label>>)
    ensures
        ({
            let t = s.jumps(targets);
            t == (State {
                code: t.code,
                label_count: t.label_count,
                labels: t.labels,
                ok: t.ok,
                ..s
            })
        }),
    decreases targets.len(),
{
    if targets.len() > 0 {
        lemma_jumps_only(s, targets.drop_last());
    }
}

/// A branch through a table, on the value in hand: it goes to the jump whose number is the
/// selector, or to what follows the table if there are not so many. Whatever the selector is, the
/// values on the stack and the accounts of registers are as they were, also where one of the
/// values is in the selector's register.
pub proof fn branching_through_table(
    s: State,
    m: Machine,
    selector: ValueLocation,
    targets: Seq<BrTarget<Label>>,
    default: Option<BrTarget<Label>>,
)
    requires
        s.ok,
        s.owns(one(selector)),
        m.wf(),
        m.next is Next,
        targets.len() <= u32::MAX,
        s.br_table_end(selector, targets, default).ok,
    ensures
        s.br_table_end(selector, targets, default).accounted(),
        s.br_table_end(selector, targets, default).stack == s.stack,
        s.br_table_end(selector, targets, default).depth == s.depth,
        selector.imm_i32() is None && targets.len() > 0 ==> {
            let (s1, reg) = s.into_temp_reg(Some(GPRType::Rq), selector);
            let entered = s1.enter_table(reg.id(), targets.len() as usize);
            let n = ran(m, s.code, entered.code);
            let number = s.value_of(m, selector);
            let chosen = if number > targets.len() {
                targets.len() as u64
            } else {
                number
            };
            &&& n.next == Control::JumpTo(product(Width::Q, chosen, 5).wrapping_add(m.table))
            &&& s.same_values(none(), m, n)
        },
{
    broadcast use {lemma_ran_nothing, lemma_uses_push};

    let t = s.br_table_end(selector, targets, default);
    if selector.imm_i32() is Some {
        lemma_owns_forget(s, none(), selector);
        lemma_owns_code(s, t, none());
    } else if targets.len() == 0 {
        let u = s.br_default(default);
        lemma_owns_code(s, u, one(selector));
        lemma_owns_free(u, none(), selector);
    } else {
        let count = targets.len() as usize;
        let (s1, reg) = s.into_temp_reg(Some(GPRType::Rq), selector);
        let r = ValueLocation::Reg(reg);
        let s2 = s1.enter_table(reg.id(), count);
        let s3 = s2.jumps(targets);
        let s4 = s3.br_default(default);
        lemma_jumps_ok(s2, targets, 0);
        assert(targets.take(0) =~= Seq::empty());
        lemma_jumps_only(s2, targets);
        assert(s2.ok && s1.ok);
        lemma_into_temp_reg(s, m, s.code, none(), Some(GPRType::Rq), selector);
        assert(GPR::Rq(reg.id()) == reg);
        let n1 = ran(m, s.code, s1.code);
        entering_table(s1, n1, reg.id(), count);
        let n = ran(m, s.code, s2.code);
        lemma_ran_on(m, s.code, s1.code, s2.code);
        lemma_same_table(m, s.code, s1.code);
        lemma_owns_code(s2, s4, one(r));
        lemma_owns_free(s4, none(), r);
        assert forall|g: GPR| g.valid() && s.known_uses(none(), g) > 0 implies #[trigger] n.gpr(g)
            == m.gpr(g) by {
            assert(n1.gpr(g) == m.gpr(g));
        }
    }
}

} // verus!
