//! Where the generated code goes: what stands at the shared labels, and what the entries of a
//! jump table are.

use vstd::prelude::*;

use crate::assembly::Label;
use crate::branches::{is_const, lemma_jumps_ok, shared_code, SharedLabel};
use crate::float::{SIGN_F32, SIGN_F64};
use crate::insn::{Cond, Insn, LocalLabel, Width};
use crate::laws::branches::{branching_on_predicate, branching_through_table, epilogue_defines};
use crate::laws::float::{constant_of, lemma_masks};
use crate::laws::one;
use crate::location::ValueLocation;
use crate::machine::{product, run, Control, Machine};
use crate::microwasm::BrTarget;
use crate::registers::GPRType;
use crate::simulation::{grown, lemma_ran_nothing, lemma_ran_on, lemma_ran_push, ran};
use crate::state::State;

verus! {

/// Code whose first instruction leaves it.
pub proof fn lemma_run_first(m: Machine, code: Seq<Insn>)
    requires
        code.len() > 0,
        m.next is Next,
        !(m.step(code[0]).next is Next),
    ensures
        run(m, code) == m.step(code[0]),
    decreases code.len(),
{
    let rest = code.drop_last();
    if rest.len() > 0 {
        assert(rest[0] == code[0]);
        lemma_run_first(m, rest);
    } else {
        assert(run(m, rest) == m);
    }
}

/// Code whose first instruction does nothing, and whose second leaves it.
pub proof fn lemma_run_second(m: Machine, code: Seq<Insn>)
    requires
        code.len() > 1,
        m.next is Next,
        m.step(code[0]) == m,
        !(m.step(code[1]).next is Next),
    ensures
        run(m, code) == m.step(code[1]),
    decreases code.len(),
{
    let rest = code.drop_last();
    if rest.len() > 1 {
        assert(rest[0] == code[0]);
        assert(rest[1] == code[1]);
        lemma_run_second(m, rest);
    } else {
        assert(rest.drop_last().len() == 0);
        assert(run(m, rest.drop_last()) == m);
        assert(rest.last() == code[0]);
        assert(run(m, rest) == m);
    }
}

/// Whether from `start` on the code of `t` defines `label` and, run from there, ends at once in
/// `next` with the machine as it was.
pub open spec fn leads_to(t: State, start: int, label: Label, next: Control) -> bool {
    exists|k: int|
        start <= k < t.code.len() && #[trigger] t.code[k] == Insn::DefineLabel(label) && forall|
            m: Machine,
        |
            m.next is Next ==> #[trigger] run(m, t.code.skip(k)) == (Machine { next, ..m })
}

/// Whether from `start` on the code of `t` defines `label` at a multiple of 16 bytes, with the
/// constant `low` there, of which this is the lower half.
pub open spec fn holds_constant(t: State, start: int, label: Label, low: u64) -> bool {
    exists|k: int|
        start < k < t.code.len() && #[trigger] t.code[k] == Insn::DefineLabel(label) && t.code[k
            - 1] == Insn::Align(16) && constant_of(t.code.skip(k + 1)) == low
}

/// Whether at the shared label is what it is for: a way back to the caller, a trap, or the mask
/// by which the sign of a number is changed or cleared.
pub open spec fn serves(t: State, start: int, label: Label, which: SharedLabel) -> bool {
    match which {
        SharedLabel::Trap => leads_to(t, start, label, Control::Trap),
        SharedLabel::Ret => leads_to(t, start, label, Control::Return),
        SharedLabel::NegF32 => holds_constant(t, start, label, SIGN_F32 as u64),
        SharedLabel::NegF64 => holds_constant(t, start, label, SIGN_F64),
        SharedLabel::AbsF32 => holds_constant(t, start, label, 0x7fff_ffff_7fff_ffff),
        SharedLabel::AbsF64 => holds_constant(t, start, label, !SIGN_F64),
    }
}

proof fn lemma_leads(t: State, start: int, label: Label, which: SharedLabel)
    requires
        which is Trap || which is Ret,
        start >= 0,
        t.defines(start, label, shared_code(which), is_const(which)),
    ensures
        serves(t, start, label, which),
{
    let code = shared_code(which);
    let k = choose|k: int|
        #![trigger t.code[k]]
        start <= k && k + 1 + code.len() <= t.code.len() && t.code[k] == Insn::DefineLabel(label)
            && t.code.subrange(k + 1, k + 1 + code.len()) == code && (is_const(which) ==> start < k
            && t.code[k - 1] == Insn::Align(16));
    assert(t.code.subrange(k + 1, k + 1 + code.len())[0] == t.code[k + 1]);
    let next = if which is Trap {
        Control::Trap
    } else {
        Control::Return
    };
    assert forall|m: Machine| m.next is Next implies #[trigger] run(m, t.code.skip(k)) == (Machine {
        next,
        ..m
    }) by {
        assert(t.code.skip(k)[0] == t.code[k]);
        assert(t.code.skip(k)[1] == t.code[k + 1]);
        lemma_run_second(m, t.code.skip(k));
    }
    assert(t.code[k] == Insn::DefineLabel(label));
}

proof fn lemma_holds_constant(t: State, start: int, label: Label, which: SharedLabel)
    requires
        !(which is Trap),
        !(which is Ret),
        start >= 0,
        t.defines(start, label, shared_code(which), is_const(which)),
    ensures
        serves(t, start, label, which),
{
    let code = shared_code(which);
    let k = choose|k: int|
        #![trigger t.code[k]]
        start <= k && k + 1 + code.len() <= t.code.len() && t.code[k] == Insn::DefineLabel(label)
            && t.code.subrange(k + 1, k + 1 + code.len()) == code && (is_const(which) ==> start < k
            && t.code[k - 1] == Insn::Align(16));
    let there = t.code.subrange(k + 1, k + 1 + code.len());
    assert(there[0] == t.code[k + 1]);
    assert(there[1] == t.code[k + 2]);
    assert(t.code.skip(k + 1)[0] == code[0]);
    assert(t.code.skip(k + 1)[1] == code[1]);
    lemma_masks();
    assert(!0x8000_0000_0000_0000u64 == 0x7fff_ffff_ffff_ffffu64) by (bit_vector);
    assert(t.code[k] == Insn::DefineLabel(label));
}

/// After an epilogue, control that goes to the shared label of the return goes back to the
/// caller, and control that goes to that of the trap traps. At the other shared labels are the
/// masks by which the sign of a number is changed or cleared.
pub proof fn shared_labels_serve(s: State, which: SharedLabel)
    requires
        s.labels.get(which) is Some,
        !s.labels.get(which)->0.is_defined,
    ensures
        serves(s.epilogue(), s.code.len() as int, s.labels.get(which)->0.label, which),
{
    let label = s.labels.get(which)->0.label;
    epilogue_defines(s, which);
    if which is Trap || which is Ret {
        lemma_leads(s.epilogue(), s.code.len() as int, label, which);
    } else {
        lemma_holds_constant(s.epilogue(), s.code.len() as int, label, which);
    }
}

/// Whether control that goes on at `next` gets to `target`, or nowhere else if there is none. A
/// return may be by way of the shared label.
pub open spec fn gets_to(t: State, target: Option<BrTarget<Label>>, next: Control) -> bool {
    match target {
        Some(BrTarget::Label(label)) => next == Control::Jump(label),
        Some(BrTarget::Return) => next is Return || t.labels.ret is Some && next == Control::Jump(
            t.labels.ret->0.label,
        ),
        None => next is Next,
    }
}

/// The target that a selector chooses.
pub open spec fn chosen(
    targets: Seq<BrTarget<Label>>,
    default: Option<BrTarget<Label>>,
    selector: int,
) -> Option<BrTarget<Label>> {
    if 0 <= selector < targets.len() {
        Some(targets[selector])
    } else {
        default
    }
}

/// Whether a table starts at number `p` of the code of `t`: its entries are jumps, which are five
/// bytes long each, to the targets in their order, and what follows them gets to the default.
pub open spec fn is_table(
    t: State,
    p: int,
    targets: Seq<BrTarget<Label>>,
    default: Option<BrTarget<Label>>,
) -> bool {
    &&& p + targets.len() <= t.code.len()
    &&& forall|k: int| 0 <= k < targets.len() ==> (#[trigger] t.code[p + k]) is Jmp
    &&& forall|k: int, m: Machine|
        0 <= k <= targets.len() && m.next is Next ==> gets_to(
            t,
            chosen(targets, default, k),
            (#[trigger] run(m, t.code.skip(p + k))).next,
        )
}

/// The jumps of a table.
proof fn lemma_jumps(s: State, targets: Seq<BrTarget<Label>>)
    ensures
        ({
            let t = s.jumps(targets);
            let p = s.code.len();
            &&& grown(s.code, t.code)
            &&& t.code.len() == p + targets.len()
            &&& s.labels.ret is Some ==> t.labels.ret == s.labels.ret
            &&& forall|k: int|
                0 <= k < targets.len() ==> (#[trigger] t.code[p + k]) is Jmp && gets_to(
                    t,
                    Some(targets[k]),
                    Control::Jump(t.code[p + k]->Jmp_0),
                )
        }),
    decreases targets.len(),
{
    if targets.len() > 0 {
        let rest = targets.drop_last();
        let u = s.jumps(rest);
        let t = s.jumps(targets);
        let p = s.code.len();
        lemma_jumps(s, rest);
        let (v, label) = u.target_to_label(targets.last());
        assert(t.code == u.code.push(Insn::Jmp(label)));
        assert forall|k: int| 0 <= k < targets.len() implies (#[trigger] t.code[p + k]) is Jmp
            && gets_to(t, Some(targets[k]), Control::Jump(t.code[p + k]->Jmp_0)) by {
            if k < rest.len() {
                assert(t.code[p + k] == u.code[p + k]);
                assert(rest[k] == targets[k]);
            }
        }
    }
}

/// The table stands after the jump into it.
proof fn lemma_table(
    u: State,
    t: State,
    targets: Seq<BrTarget<Label>>,
    default: Option<BrTarget<Label>>,
)
    requires
        t.code == u.jumps(targets).br_default(default).code,
        t.labels == u.jumps(targets).br_default(default).labels,
    ensures
        grown(u.code, t.code),
        is_table(t, u.code.len() as int, targets, default),
{
    let s3 = u.jumps(targets);
    let p = u.code.len() as int;
    lemma_jumps(u, targets);
    assert forall|k: int| 0 <= k < targets.len() implies (#[trigger] t.code[p + k]) is Jmp by {
        assert(t.code[p + k] == s3.code[p + k]);
    }
    assert forall|k: int, x: Machine| 0 <= k <= targets.len() && x.next is Next implies gets_to(
        t,
        chosen(targets, default, k),
        (#[trigger] run(x, t.code.skip(p + k))).next,
    ) by {
        let there = t.code.skip(p + k);
        if k < targets.len() {
            assert(there[0] == t.code[p + k]);
            assert(t.code[p + k] == s3.code[p + k]);
            lemma_run_first(x, there);
        } else if default is Some {
            assert(there[0] == t.code[p + k]);
            lemma_run_first(x, there);
        } else {
            assert(there.len() == 0);
        }
    }
}

/// Whether from `start` on the code of `t` has a table.
pub open spec fn has_table(
    t: State,
    start: int,
    targets: Seq<BrTarget<Label>>,
    default: Option<BrTarget<Label>>,
) -> bool {
    exists|p: int|
        start < p && #[trigger] t.code[p - 1] == Insn::DefineLocal(LocalLabel::Start) && is_table(
            t,
            p,
            targets,
            default,
        )
}

/// A branch through a table, if the selector is not known and there is a table.
proof fn lemma_through_table(
    s: State,
    m: Machine,
    selector: ValueLocation,
    targets: Seq<BrTarget<Label>>,
    default: Option<BrTarget<Label>>,
)
    requires
        s.ok,
        s.owns(one(selector)),
        m.wf(),
        m.next is Next,
        0 < targets.len() <= u32::MAX,
        selector.imm_i32() is None,
        s.br_table_end(selector, targets, default).ok,
    ensures
        ({
            let t = s.br_table_end(selector, targets, default);
            let number = s.value_of(m, selector);
            let entry = if number > targets.len() {
                targets.len() as u64
            } else {
                number
            };
            &&& ran(m, s.code, t.code).next == Control::JumpTo(
                product(Width::Q, entry, 5).wrapping_add(m.table),
            )
            &&& has_table(t, s.code.len() as int, targets, default)
        }),
{
    let t = s.br_table_end(selector, targets, default);
    let count = targets.len() as usize;
    let (s1, reg) = s.into_temp_reg(Some(GPRType::Rq), selector);
    let s2 = s1.enter_table(reg.id(), count);
    lemma_jumps_ok(s2, targets, 0);
    assert(targets.take(0) =~= Seq::empty());
    assert(s2.ok);
    branching_through_table(s, m, selector, targets, default);
    lemma_table(s2, t, targets, default);
    lemma_table_grown(s, selector, count);
    lemma_ran_on(m, s.code, s2.code, t.code);
    let p = s2.code.len() as int;
    assert(t.code[p - 1] == s2.code[p - 1]);
}

/// A branch through a table goes to the target whose number is the selector, and to the default
/// if there is no such target. If there is no default either, the code after the branch runs. A
/// selector that is known now goes there directly. Any other goes to the entry with its number in
/// a table of which each entry takes five bytes, or to what follows the last.
pub proof fn table_targets(
    s: State,
    m: Machine,
    selector: ValueLocation,
    targets: Seq<BrTarget<Label>>,
    default: Option<BrTarget<Label>>,
)
    requires
        s.ok,
        s.owns(one(selector)),
        m.wf(),
        m.next is Next,
        targets.len() <= u32::MAX,
        s.br_table_end(selector, targets, default).ok,
    ensures
        ({
            let t = s.br_table_end(selector, targets, default);
            let n = ran(m, s.code, t.code);
            let number = s.value_of(m, selector);
            let entry = if number > targets.len() {
                targets.len() as u64
            } else {
                number
            };
            match selector.imm_i32() {
                Some(known) => gets_to(t, chosen(targets, default, known as int), n.next),
                None => if targets.len() == 0 {
                    gets_to(t, default, n.next)
                } else {
                    &&& n.next == Control::JumpTo(
                        product(Width::Q, entry, 5).wrapping_add(m.table),
                    )
                    &&& has_table(t, s.code.len() as int, targets, default)
                },
            }
        }),
{
    if selector.imm_i32() is None && targets.len() > 0 {
        lemma_through_table(s, m, selector, targets, default);
    } else {
        let target = match selector.imm_i32() {
            Some(known) => chosen(targets, default, known as int),
            None => default,
        };
        lemma_ran_nothing(m, s.code);
        if target == Some(BrTarget::<Label>::Return) {
            lemma_ran_push(m, s.code, s.code, Insn::Ret);
        } else if let Some(BrTarget::Label(label)) = target {
            lemma_ran_push(m, s.code, s.code, Insn::Jmp(label));
        }
        assert(s.br_table_end(selector, targets, default).code == s.br_default(target).code);
    }
}

/// The code of the jump into a table is added, and ends where the table starts.
proof fn lemma_table_grown(s: State, selector: ValueLocation, count: usize)
    requires
        ({
            let (s1, reg) = s.into_temp_reg(Some(GPRType::Rq), selector);
            s1.enter_table(reg.id(), count).ok
        }),
    ensures
        ({
            let (s1, reg) = s.into_temp_reg(Some(GPRType::Rq), selector);
            let s2 = s1.enter_table(reg.id(), count);
            &&& grown(s.code, s2.code)
            &&& s.code.len() < s2.code.len()
            &&& s2.code.last() == Insn::DefineLocal(LocalLabel::Start)
        }),
{
}

/// A conditional branch gets to its target if the lower half of the predicate is not zero, or in
/// the case of the other one if it is zero, and else to what comes after it. No argument is passed
/// here between popping the predicate and testing it.
pub proof fn conditional_target(s: State, m: Machine, target: BrTarget<Label>)
    requires
        s.at(m),
        s.stack.len() > 0,
        ({
            let (s1, val, label) = s.br_if_start(target);
            &&& s1.br_if_end(val, label, Cond::Ne).ok
            &&& s1.br_if_end(val, label, Cond::E).ok
        }),
    ensures
        ({
            let (s1, val, label) = s.br_if_start(target);
            let if_true = s1.br_if_end(val, label, Cond::Ne);
            let if_false = s1.br_if_end(val, label, Cond::E);
            let zero = s.top(m, 0) as u32 == 0;
            &&& gets_to(
                if_true,
                if zero {
                    None
                } else {
                    Some(target)
                },
                ran(m, s.code, if_true.code).next,
            )
            &&& gets_to(
                if_false,
                if zero {
                    Some(target)
                } else {
                    None
                },
                ran(m, s.code, if_false.code).next,
            )
        }),
{
    branching_on_predicate(s, m, target);
    let (s1, val, label) = s.br_if_start(target);
    let if_true = s1.br_if_end(val, label, Cond::Ne);
    let if_false = s1.br_if_end(val, label, Cond::E);
    assert(if_true.labels == s1.labels);
    assert(if_false.labels == s1.labels);
    if target is Return {
        assert(s1.labels.ret is Some && s1.labels.ret->0.label == label);
    }
}

} // verus!
