//! The checks of an indirect call.

use vstd::prelude::*;

use crate::assembly::Label;
use crate::bits::lemma_u64_views;
use crate::blocks::as_values;
use crate::branches::SharedLabel;
use crate::calls::{
    call_indirect_code, lemma_pass_outgoing_args_ok, lemma_push_returns_ok, lemma_release_all_ok,
};
use crate::insn::{Cond, Insn, Mem, Operand, Width};
use crate::laws::arguments::{
    lemma_mark_all_owns, lemma_release_all_owns, parameter_places, stacked,
};
use crate::laws::arith::lemma_owns_code;
use crate::laws::blocks::{lemma_mark_all_only, lemma_uses_add};
use crate::laws::calls::{lemma_passing, parameter_value, results_pushed};
use crate::laws::locations::place_is_sound;
use crate::laws::{none, two};
use crate::location::{CCLoc, ValueLocation, VMCTX};
use crate::machine::{load, product, Control, Machine};
use crate::module_context::ModuleContext;
use crate::ownership::{
    lemma_owns_free, lemma_owns_pop, lemma_owns_reorder, lemma_uses_at, lemma_uses_push,
    taken_is_unused, uses,
};
use crate::registers::{is_scratch, rq, GPRType, RegId, GPR};
use crate::simulation::{lemma_into_temp_reg, lemma_ran_nothing, lemma_ran_push, ran};
use crate::state::State;

verus! {

/// How many elements the table has, as the VM context says.
pub open spec fn table_size<M: ModuleContext>(module: M, m: Machine) -> u32 {
    load(
        m.mem,
        m.rq[VMCTX as int] + module.spec_vmctx_vmtable_definition_current_elements(0) as i32,
    ) as u32
}

/// The address of the table's element with the given number.
pub open spec fn element<M: ModuleContext>(module: M, m: Machine, index: u64) -> int {
    let size = module.spec_size_of_vmcaller_checked_anyfunc() as i32;
    load(m.mem, m.rq[VMCTX as int] + module.spec_vmctx_vmtable_definition_base(0) as i32)
        + product(Width::D, index, size as u64)
}

/// Whether the table's element with the given number has the signature `type_id`.
pub open spec fn has_signature<M: ModuleContext>(
    module: M,
    m: Machine,
    index: u64,
    type_id: u32,
) -> bool {
    let wanted = load(
        m.mem,
        m.rq[VMCTX as int] + module.spec_vmctx_vmshared_signature_id(type_id) as i32,
    );
    let at = element(module, m, index) + module.spec_vmcaller_checked_anyfunc_type_index() as i32;
    load(m.mem, at) as u32 == wanted as u32
}

/// An indirect call goes to the label for failures if the table has no element with the number
/// that is asked for, or if that element has another signature. Otherwise it calls the element.
pub proof fn indirect_call_checks<M: ModuleContext>(
    s: State,
    m: Machine,
    module: M,
    type_id: u32,
    callee: RegId,
    temp0: RegId,
    temp1: RegId,
    fail: Label,
)
    requires
        m.wf(),
        m.next is Next,
        callee < 16 && temp0 < 16 && temp1 < 16,
        callee != temp0 && callee != temp1 && temp0 != temp1,
        callee != rq::RSP && temp0 != rq::RSP && temp1 != rq::RSP,
        callee != VMCTX && temp0 != VMCTX && temp1 != VMCTX,
    ensures
        ({
            let code = call_indirect_code(module, type_id, callee, temp0, temp1, fail);
            let n = ran(m, s.code, s.emit_all(code).code);
            let index = m.rq[callee as int];
            let target = element(module, m, index)
                + module.spec_vmcaller_checked_anyfunc_func_ptr() as i32;
            n.next == (if index as u32 >= table_size(module, m) || !has_signature(
                module,
                m,
                index,
                type_id,
            ) {
                Control::Jump(fail)
            } else {
                Control::Call(load(m.mem, target))
            })
        }),
{
    let code = call_indirect_code(module, type_id, callee, temp0, temp1, fail);
    let c1 = s.code.push(code[0]);
    let c2 = c1.push(code[1]);
    let c3 = c2.push(code[2]);
    let c4 = c3.push(code[3]);
    let c5 = c4.push(code[4]);
    let c6 = c5.push(code[5]);
    let c7 = c6.push(code[6]);
    let c8 = c7.push(code[7]);
    assert(s.code + code =~= c8);
    lemma_ran_nothing(m, s.code);
    lemma_ran_push(m, s.code, s.code, code[0]);
    lemma_ran_push(m, s.code, c1, code[1]);
    lemma_ran_push(m, s.code, c2, code[2]);
    lemma_ran_push(m, s.code, c3, code[3]);
    lemma_ran_push(m, s.code, c4, code[4]);
    lemma_ran_push(m, s.code, c5, code[5]);
    lemma_ran_push(m, s.code, c6, code[6]);
    lemma_ran_push(m, s.code, c7, code[7]);
    let index = m.rq[callee as int];
    lemma_bounds_check(m, module, callee, fail);
    if (index as u32) < table_size(module, m) {
        let n2 = ran(m, s.code, c2);
        assert(n2 == m.with_flags(n2.flags));
        let n5 = n2.step(code[2]).step(code[3]).step(code[4]);
        lemma_loading_code(module, type_id, callee, temp0, temp1, fail);
        lemma_operands_loaded(
            n2,
            callee,
            temp0,
            temp1,
            module.spec_size_of_vmcaller_checked_anyfunc() as i32,
            module.spec_vmctx_vmtable_definition_base(0) as i32,
            module.spec_vmctx_vmshared_signature_id(type_id) as i32,
        );
        lemma_signature_check(n5, n2, module, type_id, callee, temp0, temp1, fail);
        assert(has_signature(module, n2, index, type_id) == has_signature(
            module,
            m,
            index,
            type_id,
        ));
        assert(element(module, n2, index) == element(module, m, index));
    }
}

proof fn lemma_bounds_check<M: ModuleContext>(m: Machine, module: M, callee: RegId, fail: Label)
    requires
        m.wf(),
        m.next is Next,
        callee < 16,
    ensures
        ({
            let n = m.step(
                Insn::Cmp {
                    w: Width::D,
                    left: Operand::rq(callee),
                    right: Operand::at(
                        VMCTX,
                        module.spec_vmctx_vmtable_definition_current_elements(0) as i32,
                    ),
                },
            );
            &&& n.next is Next
            &&& n == m.with_flags(n.flags)
            &&& n.step(Insn::Jcc { cond: Cond::Ae, label: fail }) == (if m.rq[callee as int] as u32
                >= table_size(module, m) {
                (Machine { next: Control::Jump(fail), ..n })
            } else {
                n
            })
        }),
{
    lemma_u64_views(m.rq[callee as int]);
}

/// Whether the registers hold what the second check compares: the offset of the element, the
/// start of the table, and the signature.
spec fn has_operands<M: ModuleContext>(
    n: Machine,
    m: Machine,
    module: M,
    type_id: u32,
    callee: RegId,
    temp0: RegId,
    temp1: RegId,
) -> bool {
    let size = module.spec_size_of_vmcaller_checked_anyfunc() as i32;
    let vmctx = m.rq[VMCTX as int];
    let table_at = module.spec_vmctx_vmtable_definition_base(0) as i32;
    let wanted_at = module.spec_vmctx_vmshared_signature_id(type_id) as i32;
    &&& n.wf()
    &&& n.next == m.next
    &&& n.mem == m.mem
    &&& n.rq[callee as int] == product(Width::D, m.rq[callee as int], size as u64)
    &&& n.rq[temp0 as int] == load(m.mem, vmctx + table_at)
    &&& n.rq[temp1 as int] == load(m.mem, vmctx + wanted_at) as u32 as u64
}

/// The instructions that load these operands, by their place in the code.
proof fn lemma_loading_code<M: ModuleContext>(
    module: M,
    type_id: u32,
    callee: RegId,
    temp0: RegId,
    temp1: RegId,
    fail: Label,
)
    ensures
        ({
            let code = call_indirect_code(module, type_id, callee, temp0, temp1, fail);
            let size = module.spec_size_of_vmcaller_checked_anyfunc() as i32;
            let table_at = module.spec_vmctx_vmtable_definition_base(0) as i32;
            let wanted_at = module.spec_vmctx_vmshared_signature_id(type_id) as i32;
            &&& code[2] == (Insn::ImulImm { w: Width::D, dst: callee, src: callee, imm: size })
            &&& code[3] == (Insn::Mov {
                w: Width::Q,
                dst: Operand::rq(temp0),
                src: Operand::at(VMCTX, table_at),
            })
            &&& code[4] == (Insn::Mov {
                w: Width::D,
                dst: Operand::rq(temp1),
                src: Operand::at(VMCTX, wanted_at),
            })
        }),
{
}

#[verifier::rlimit(30)]
proof fn lemma_signature_check<M: ModuleContext>(
    n: Machine,
    m: Machine,
    module: M,
    type_id: u32,
    callee: RegId,
    temp0: RegId,
    temp1: RegId,
    fail: Label,
)
    requires
        has_operands(n, m, module, type_id, callee, temp0, temp1),
        callee < 16 && temp0 < 16 && temp1 < 16,
        callee != rq::RSP && temp0 != rq::RSP && temp1 != rq::RSP,
    ensures
        ({
            let code = call_indirect_code(module, type_id, callee, temp0, temp1, fail);
            let index = m.rq[callee as int];
            let n6 = n.step(code[5]);
            let n7 = n6.step(code[6]);
            let target = element(module, m, index)
                + module.spec_vmcaller_checked_anyfunc_func_ptr() as i32;
            &&& n6.next == m.next
            &&& if has_signature(module, m, index, type_id) {
                n7.next == m.next && n7.step(code[7]).next == Control::Call(load(m.mem, target))
            } else {
                n7.next == Control::Jump(fail)
            }
        }),
{
    let wanted_at = module.spec_vmctx_vmshared_signature_id(type_id) as i32;
    lemma_checked_call(
        n,
        callee,
        temp0,
        temp1,
        module.spec_vmcaller_checked_anyfunc_type_index() as i32,
        module.spec_vmcaller_checked_anyfunc_func_ptr() as i32,
        fail,
    );
    lemma_low(load(m.mem, m.rq[VMCTX as int] + wanted_at));
}

proof fn lemma_low(v: u64)
    ensures
        (v as u32 as u64) as u32 == v as u32,
{
}

/// The three instructions that load the operands of the second check.
proof fn lemma_operands_loaded(
    m: Machine,
    callee: RegId,
    temp0: RegId,
    temp1: RegId,
    size: i32,
    table_at: i32,
    wanted_at: i32,
)
    requires
        m.wf(),
        callee < 16 && temp0 < 16 && temp1 < 16,
        callee != temp0 && callee != temp1 && temp0 != temp1,
        callee != rq::RSP && temp0 != rq::RSP && temp1 != rq::RSP,
        callee != VMCTX && temp0 != VMCTX && temp1 != VMCTX,
    ensures
        ({
            let i1 = Insn::ImulImm { w: Width::D, dst: callee, src: callee, imm: size };
            let i2 = Insn::Mov {
                w: Width::Q,
                dst: Operand::rq(temp0),
                src: Operand::at(VMCTX, table_at),
            };
            let i3 = Insn::Mov {
                w: Width::D,
                dst: Operand::rq(temp1),
                src: Operand::at(VMCTX, wanted_at),
            };
            let n = m.step(i1).step(i2).step(i3);
            &&& n.wf()
            &&& n.next == m.next
            &&& m.step(i1).next == m.next
            &&& m.step(i1).step(i2).next == m.next
            &&& n.mem == m.mem
            &&& n.rq[callee as int] == product(Width::D, m.rq[callee as int], size as u64)
            &&& n.rq[temp0 as int] == load(m.mem, m.rq[VMCTX as int] + table_at)
            &&& n.rq[temp1 as int] == load(m.mem, m.rq[VMCTX as int] + wanted_at) as u32 as u64
        }),
{
}

/// The second check, and the call.
proof fn lemma_checked_call(
    m: Machine,
    callee: RegId,
    temp0: RegId,
    temp1: RegId,
    type_at: i32,
    func_at: i32,
    fail: Label,
)
    requires
        m.wf(),
        callee < 16 && temp0 < 16 && temp1 < 16,
        callee != rq::RSP && temp0 != rq::RSP && temp1 != rq::RSP,
    ensures
        ({
            let at = |disp: i32| Mem { base: temp0, index: Some(callee), disp };
            let i1 = Insn::Cmp {
                w: Width::D,
                left: Operand::Mem(at(type_at)),
                right: Operand::rq(temp1),
            };
            let i2 = Insn::Jcc { cond: Cond::Ne, label: fail };
            let i3 = Insn::CallMem(at(func_at));
            let element = m.rq[temp0 as int] + m.rq[callee as int];
            let n = m.step(i1).step(i2);
            &&& m.step(i1).next == m.next
            &&& if load(m.mem, element + type_at) as u32 == m.rq[temp1 as int] as u32 {
                n.next == m.next && n.step(i3).next == Control::Call(
                    load(m.mem, element + func_at),
                )
            } else {
                n.next == Control::Jump(fail)
            }
        }),
{
    let element = m.rq[temp0 as int] + m.rq[callee as int];
    let mem = Mem { base: temp0, index: Some(callee), disp: type_at };
    assert(m.addr(mem) == element + type_at);
    let func = Mem { base: temp0, index: Some(callee), disp: func_at };
    assert(m.addr(func) == element + func_at);
}

/// Putting the number of the callee and two temporaries into registers that no argument needs.
proof fn lemma_call_indirect_start(s: State, m: Machine, args: Seq<CCLoc>)
    requires
        s.at(m),
        s.stack.len() > 0,
        s.call_indirect_start(args).0.ok,
        parameter_places(args),
    ensures
        ({
            let (t, callee, temp0, temp1) = s.call_indirect_start(args);
            let n = ran(m, s.code, t.code);
            let held = two(ValueLocation::Reg(callee), ValueLocation::Reg(temp0)).push(
                ValueLocation::Reg(temp1),
            );
            &&& callee is Rq && temp0 is Rq && temp1 is Rq
            &&& is_scratch(callee) && is_scratch(temp0) && is_scratch(temp1)
            &&& callee != temp0 && callee != temp1 && temp0 != temp1
            &&& t.reached(m, s.code)
            &&& t.owns(held)
            &&& t.stack == s.stack.drop_last()
            &&& t.depth == s.depth
            &&& n.mem == m.mem
            &&& n.rsp == m.rsp
            &&& n.gpr(callee) == s.top(m, 0)
            &&& forall|i: int|
                0 <= i < t.stack.len() ==> #[trigger] t.value_at(n, i) == s.value_at(m, i)
            &&& forall|g: GPR|
                g.valid() && !is_scratch(g) ==> #[trigger] n.gpr(g) == m.gpr(g)
        }),
{
    broadcast use {lemma_ran_nothing, lemma_uses_push};

    let vals = as_values(args);
    let s0 = s.mark_all(vals);
    let (s1, val) = s0.pop();
    let (s2, callee) = s1.into_temp_reg(Some(GPRType::Rq), val);
    let (s3, temp0) = s2.take(GPRType::Rq);
    let (s4, temp1) = s3.take(GPRType::Rq);
    let c = ValueLocation::Reg(callee);
    let t0 = ValueLocation::Reg(temp0);
    let t1 = ValueLocation::Reg(temp1);
    lemma_release_all_ok(s4, vals, 0);
    assert(vals.take(0) =~= Seq::empty());
    assert forall|i: int| 0 <= i < vals.len() implies #[trigger] vals[i].valid() by {
        assert(place_is_sound(args[i]));
    }
    lemma_mark_all_only(s, vals);
    lemma_mark_all_owns(s, none(), vals);
    assert(none() + vals =~= vals);
    lemma_owns_pop(s0, vals);
    lemma_into_temp_reg(s1, m, s.code, vals, Some(GPRType::Rq), val);
    taken_is_unused(s2, vals.push(c), GPRType::Rq);
    taken_is_unused(s3, vals.push(c).push(t0), GPRType::Rq);
    let held = two(c, t0).push(t1);
    assert forall|g: GPR| #[trigger] uses(held + vals, g) <= uses(
        vals.push(c).push(t0).push(t1),
        g,
    ) by {
        lemma_uses_add(held, vals, g);
    }
    lemma_owns_reorder(s4, vals.push(c).push(t0).push(t1), held + vals);
    lemma_release_all_owns(s4, held, vals);
    let t = s4.release_all(vals);
    let n = ran(m, s.code, t.code);
    assert forall|i: int| 0 <= i < t.stack.len() implies #[trigger] t.value_at(n, i) == s.value_at(
        m,
        i,
    ) by {
        let loc = s.stack[i];
        assert(loc.valid());
        if loc is Reg {
            lemma_uses_at(s1.stack, i, loc->Reg_0);
            assert(n.gpr(loc->Reg_0) == m.gpr(loc->Reg_0));
        }
    }
    assert forall|g: GPR| g.valid() && !is_scratch(g) implies #[trigger] n.gpr(g) == m.gpr(g) by {
        assert(s1.known_uses(vals, g) > 0);
    }
}

/// An indirect call: when the arguments are passed, the number that was on top of the stack is
/// in the register that is checked, each parameter has its value, and the values below are as
/// they were. If the table has an element with that number and the signature `type_id`, the call
/// goes to that element. Otherwise it goes to the trap. The results are on the stack afterwards,
/// and the accounts of registers are in order.
pub proof fn calling_indirect<M: ModuleContext>(
    s: State,
    m: Machine,
    module: M,
    type_id: u32,
    args: Seq<CCLoc>,
    rets: Seq<CCLoc>,
)
    requires
        s.at(m),
        s.stack.len() > args.len(),
        s.call_indirect(module, type_id, args, rets).ok,
        parameter_places(args),
        forall|j: int|
            0 <= j < rets.len() ==> (#[trigger] rets[j]) is Reg && place_is_sound(rets[j]),
        s.framed(s.stack.len() - 1 - args.len() + stacked(args, args.len() as int)),
    ensures
        s.call_indirect(module, type_id, args, rets).accounted(),
        s.call_indirect(module, type_id, args, rets).stack == s.call_indirect_start(
            args,
        ).0.pass_outgoing_args(args).stack + as_values(rets),
        ({
            let (s1, callee, temp0, temp1) = s.call_indirect_start(args);
            let s2 = s1.pass_outgoing_args(args);
            let (s3, fail) = s2.shared_label(SharedLabel::Trap);
            let code = call_indirect_code(
                module,
                type_id,
                callee.id(),
                temp0.id(),
                temp1.id(),
                fail,
            );
            let n = ran(m, s.code, s2.code);
            let index = s.top(m, 0);
            let base = s.stack.len() - 1 - args.len();
            let target = element(module, n, index)
                + module.spec_vmcaller_checked_anyfunc_func_ptr() as i32;
            &&& s2.reached(m, s.code)
            &&& s2.stack.len() == base
            &&& s2.frame(n) == s.frame(m)
            &&& n.gpr(callee) == index
            &&& n.gpr(GPR::Rq(VMCTX)) == m.gpr(GPR::Rq(VMCTX))
            &&& forall|j: int|
                0 <= j < args.len() ==> parameter_value(n, #[trigger] args[j]) == s.value_at(
                    m,
                    base + j,
                )
            &&& forall|i: int| 0 <= i < base ==> #[trigger] s2.value_at(n, i) == s.value_at(m, i)
            &&& forall|i: int|
                0 <= i < base && #[trigger] s2.stack[i] is Reg ==> !is_scratch(s2.stack[i]->Reg_0)
            &&& forall|a: int| a >= m.rsp ==> #[trigger] (n.mem)(a) == (m.mem)(a)
            &&& ran(n, s3.code, s3.emit_all(code).code).next == (if index as u32 >= table_size(
                module,
                n,
            ) || !has_signature(module, n, index, type_id) {
                Control::Jump(fail)
            } else {
                Control::Call(load(n.mem, target))
            })
        }),
{
    broadcast use lemma_uses_push;

    let (s1, callee, temp0, temp1) = s.call_indirect_start(args);
    let s2 = s1.pass_outgoing_args(args);
    let (s3, fail) = s2.shared_label(SharedLabel::Trap);
    let code = call_indirect_code(module, type_id, callee.id(), temp0.id(), temp1.id(), fail);
    let s4 = s3.emit_all(code).release(temp0).release(temp1).release(callee);
    let held = two(ValueLocation::Reg(callee), ValueLocation::Reg(temp0)).push(
        ValueLocation::Reg(temp1),
    );
    lemma_push_returns_ok(s4, rets, 0);
    assert(rets.take(0) =~= Seq::empty());
    lemma_pass_outgoing_args_ok(s1, args);
    lemma_call_indirect_start(s, m, args);
    let base = s.stack.len() - 1 - args.len();
    assert(s1.framed(base + stacked(args, args.len() as int))) by {
        assert forall|i: int| 0 <= i < s1.stack.len() implies #[trigger] s1.stack[i]
            == s.stack[i] by {}
    }
    lemma_passing(s1, m, s.code, held, args);
    assert(s4.accounted() && s4.stack == s2.stack) by {
        let c = ValueLocation::Reg(callee);
        let t0 = ValueLocation::Reg(temp0);
        let t1 = ValueLocation::Reg(temp1);
        let u = s3.emit_all(code);
        let order = none().push(c).push(t1).push(t0);
        assert forall|g: GPR| #[trigger] uses(order, g) <= uses(held, g) by {}
        lemma_owns_code(s2, u, held);
        lemma_owns_reorder(u, held, order);
        lemma_owns_free(u, none().push(c).push(t1), t0);
        lemma_owns_free(u.release(temp0), none().push(c), t1);
        lemma_owns_free(u.release(temp0).release(temp1), none(), c);
    }
    results_pushed(s4, rets);
    let n = ran(m, s.code, s2.code);
    let n1 = ran(m, s.code, s1.code);
    assert(uses(held, callee) > 0);
    assert(n.gpr(callee) == n1.gpr(callee));
    assert(n1.gpr(GPR::Rq(VMCTX)) == m.gpr(GPR::Rq(VMCTX)));
    indirect_call_checks(
        s3,
        n,
        module,
        type_id,
        callee.id(),
        temp0.id(),
        temp1.id(),
        fail,
    );
    assert forall|j: int| 0 <= j < args.len() implies parameter_value(n, #[trigger] args[j])
        == s.value_at(m, base + j) by {
        assert(s1.value_at(n1, base + j) == s.value_at(m, base + j));
    }
    assert forall|i: int| 0 <= i < base implies #[trigger] s2.value_at(n, i) == s.value_at(
        m,
        i,
    ) by {
        assert(s1.value_at(n1, i) == s.value_at(m, i));
    }
}

} // verus!
