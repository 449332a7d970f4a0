//! Every step keeps it that code defines only labels that were made, and each at most once.

use vstd::prelude::*;

use cranelift_codegen::ir;

use crate::assembly::{Label, PendingLabel};
use crate::arith::{fold_i32, fold_i64, BinOp};
use crate::blocks::{as_values, SaveSet};
use crate::branches::{is_const, print_code, shared_code, SharedLabel};
use crate::calls::{
    call_indirect_code, lemma_push_returns_ok, stack_space, Move, UNKNOWN_ADDRESS,
};
use crate::compare::Relation;
use crate::division::{rax, rdx, Saved};
use crate::insn::{AluOp, BitOp, Cond, Insn, Operand, Precision, ShiftOp, SseOp, Width};
use crate::labels::{definitions, is_plain, lemma_defined, lemma_definitions};
use crate::laws::blocks::lemma_mark_all_only;
use crate::location::{CCLoc, ValueLocation};
use crate::memory::LoadOp;
use crate::microwasm::{BrTarget, Ieee32, Ieee64, Value};
use crate::module_context::ModuleContext;
use crate::registers::{rq, GPRType, RegId, RegState, GPR};
use crate::session::FuncStart;
use crate::state::State;

verus! {

impl State {
    /// Whether the step from `self` to `t` neither made nor defined a label.
    pub open spec fn same_labels(self, t: State) -> bool {
        &&& definitions(t.code) == definitions(self.code)
        &&& t.label_count == self.label_count
        &&& t.labels == self.labels
    }
}

/// A step that neither makes nor defines a label keeps the labels sound.
pub proof fn labels_stay_sound(s: State, t: State, starts: Seq<FuncStart>)
    requires
        s.labels_are_sound(starts),
        s.same_labels(t),
    ensures
        t.labels_are_sound(starts),
{
}

broadcast proof fn lemma_emit_same(s: State, insn: Insn)
    requires
        !(insn is DefineLabel),
    ensures
        definitions((#[trigger] s.emit(insn)).code) == definitions(s.code),
{
    assert(s.code.push(insn).drop_last() =~= s.code);
}

/// Code that defines no label.
spec fn defines_nothing(code: Seq<Insn>) -> bool {
    forall|i: int| 0 <= i < code.len() ==> !((#[trigger] code[i]) is DefineLabel)
}

proof fn lemma_append_same(code: Seq<Insn>, more: Seq<Insn>)
    requires
        defines_nothing(more),
    ensures
        definitions(code + more) == definitions(code),
    decreases more.len(),
{
    if more.len() == 0 {
        assert(code + more =~= code);
    } else {
        let all = code + more;
        assert(all.drop_last() =~= code + more.drop_last());
        assert(all.last() == more[more.len() - 1]);
        assert forall|i: int| 0 <= i < more.drop_last().len() implies !((
        #[trigger] more.drop_last()[i]) is DefineLabel) by {
            assert(more.drop_last()[i] == more[i]);
        }
        lemma_append_same(code, more.drop_last());
    }
}

broadcast proof fn lemma_immediate_same(s: State, reg: GPR, val: Value)
    ensures
        s.same_labels(#[trigger] s.immediate_to_reg(reg, val)),
{
    broadcast use lemma_emit_same;

}

broadcast proof fn lemma_copy_same(s: State, src: ValueLocation, dst: ValueLocation)
    ensures
        s.same_labels(#[trigger] s.copy_value(src, dst)),
{
    broadcast use {lemma_emit_same, lemma_immediate_same};

}

broadcast proof fn lemma_fresh_same(s: State, ty: GPRType, val: ValueLocation)
    ensures
        s.same_labels((#[trigger] s.into_fresh_reg(ty, val)).0),
{
    broadcast use lemma_copy_same;

}

broadcast proof fn lemma_reg_same(s: State, ty: Option<GPRType>, val: ValueLocation)
    ensures
        s.same_labels((#[trigger] s.into_reg(ty, val)).0),
{
    broadcast use lemma_fresh_same;

}

broadcast proof fn lemma_temp_same(s: State, ty: Option<GPRType>, val: ValueLocation)
    ensures
        s.same_labels((#[trigger] s.into_temp_reg(ty, val)).0),
{
    broadcast use {lemma_fresh_same, lemma_reg_same};

}

broadcast proof fn lemma_physical_same(s: State, val: ValueLocation)
    ensures
        s.same_labels((#[trigger] s.push_physical(val)).0),
{
    broadcast use lemma_emit_same;

}

/// The operators on integers neither make nor define a label.
pub proof fn labels_in_arithmetic(s: State, op: AluOp, bits: BitOp, w: Width)
    ensures
        s.same_labels(s.binop_i32(op)),
        s.same_labels(s.binop_i64(op)),
        s.same_labels(s.mul(w)),
        s.same_labels(s.unop(bits, w)),
        s.same_labels(s.extend_u()),
        s.same_labels(s.extend_s()),
        s.same_labels(s.select()),
{
    broadcast use {lemma_emit_same, lemma_reg_same, lemma_temp_same};

    let n = s.stack.len();
    lemma_binop_same(
        s,
        BinOp::I32(op),
        Value::I32(fold_i32(op, s.stack[n - 2].imm_i32()->0, s.stack[n - 1].imm_i32()->0)),
    );
    lemma_binop_same(
        s,
        BinOp::I64(op),
        Value::I64(fold_i64(op, s.stack[n - 2].imm_i64()->0, s.stack[n - 1].imm_i64()->0)),
    );
    lemma_mul_same(s, w);
    lemma_select_same(s);
}

proof fn lemma_binop_same(s: State, op: BinOp, folded: Value)
    ensures
        s.same_labels(s.binop(op, folded)),
{
    broadcast use {lemma_emit_same, lemma_immediate_same, lemma_reg_same, lemma_temp_same};

}

proof fn lemma_mul_same(s: State, w: Width)
    ensures
        s.same_labels(s.mul(w)),
{
    broadcast use {lemma_emit_same, lemma_reg_same, lemma_temp_same};

}

proof fn lemma_select_same(s: State)
    ensures
        s.same_labels(s.select()),
{
    broadcast use {lemma_emit_same, lemma_reg_same, lemma_temp_same};

}

/// The comparisons neither make nor define a label.
pub proof fn labels_in_comparisons(
    s: State,
    rel: Relation,
    w: Width,
    prec: Precision,
    cond: Cond,
)
    ensures
        s.same_labels(s.relation(rel, w)),
        s.same_labels(s.eqz(w)),
        s.same_labels(s.float_greater(prec, cond)),
        s.same_labels(s.float_less(prec, cond)),
{
    lemma_relation_same(s, rel, w);
    lemma_eqz_same(s, w);
    lemma_float_compare_same(s, prec, cond);
}

proof fn lemma_relation_same(s: State, rel: Relation, w: Width)
    ensures
        s.same_labels(s.relation(rel, w)),
{
    broadcast use {lemma_emit_same, lemma_immediate_same, lemma_reg_same};

}

proof fn lemma_eqz_same(s: State, w: Width)
    ensures
        s.same_labels(s.eqz(w)),
{
    broadcast use {lemma_emit_same, lemma_reg_same};

}

proof fn lemma_float_compare_same(s: State, prec: Precision, cond: Cond)
    ensures
        s.same_labels(s.float_greater(prec, cond)),
        s.same_labels(s.float_less(prec, cond)),
{
    broadcast use {lemma_emit_same, lemma_reg_same};

}

/// The shifts and rotations neither make nor define a label.
pub proof fn labels_in_shifts(s: State, op: ShiftOp, w: Width)
    ensures
        s.same_labels(s.shift(op, w)),
{
    broadcast use {lemma_emit_same, lemma_fresh_same, lemma_temp_same};

}

/// Division neither makes nor defines a label.
pub proof fn labels_in_division(s: State, signed: bool, w: Width)
    ensures
        s.same_labels(s.div(signed, w)),
        s.same_labels(s.rem(signed, w)),
{
    broadcast use lemma_emit_same;

    let (s1, divisor) = s.pop();
    let (s2, quotient) = s1.pop();
    lemma_full_div_same(s2, signed, w, divisor, quotient);
    let (s3, saved) = s2.full_div(signed, w, divisor, quotient);
    lemma_push_result_same(s3.release(rdx()), rax(), saved.rax, saved);
    lemma_push_result_same(s3.release(rax()), rdx(), saved.rdx, saved);
}

proof fn lemma_full_div_same(
    s: State,
    signed: bool,
    w: Width,
    divisor: ValueLocation,
    quotient: ValueLocation,
)
    ensures
        s.same_labels(s.full_div(signed, w, divisor, quotient).0),
{
    broadcast use {lemma_emit_same, lemma_copy_same, lemma_fresh_same, lemma_reg_same};

    reveal(State::full_div);
    let (s1, d) = s.place_divisor(divisor);
    assert(s.same_labels(s1));
    let (s2, saved) = s1.place_dividend(quotient);
    assert(s1.same_labels(s2));
}

proof fn lemma_push_result_same(s: State, reg: GPR, old: Option<GPR>, saved: Saved)
    ensures
        s.same_labels(s.push_result(reg, old, saved)),
{
    broadcast use {lemma_emit_same, lemma_copy_same};

    reveal(State::push_result);
}

/// Access to the memory and to globals neither makes nor defines a label.
pub proof fn labels_in_memory_access(s: State, at: u32, op: LoadOp, w: Width, offset: u32)
    ensures
        s.same_labels(s.load(at, op, offset)),
        s.same_labels(s.store(at, w, offset)),
        s.same_labels(s.get_global(offset)),
        s.same_labels(s.set_global(offset)),
{
    broadcast use {lemma_emit_same, lemma_reg_same, lemma_store_same};

}

broadcast proof fn lemma_store_same(
    s: State,
    memory: u32,
    w: Width,
    src: GPR,
    index: Option<RegId>,
    disp: i32,
)
    ensures
        s.same_labels(#[trigger] s.store_from_reg(memory, w, src, index, disp)),
{
    broadcast use {lemma_emit_same, lemma_temp_same};

    reveal(State::store_from_reg);
}

proof fn lemma_free_all_same(s: State, vals: Seq<ValueLocation>)
    ensures
        s.same_labels(s.free_all(vals)),
    decreases vals.len(),
{
    if vals.len() > 0 {
        lemma_free_all_same(s.free_value(vals.last()), vals.drop_last());
    }
}

proof fn lemma_serialize_same(s: State, count: nat)
    ensures
        s.same_labels(s.serialize(count).0),
    decreases count,
{
    broadcast use lemma_temp_same;

    if count > 0 {
        let (s1, val) = s.pop();
        let (s2, reg) = s1.into_temp_reg(None, val);
        lemma_serialize_same(s2, (count - 1) as nat);
    }
}

proof fn lemma_save_regs_same(s: State, set: SaveSet, start: int, end: int)
    ensures
        s.same_labels(s.save_regs(set, start, end)),
    decreases end - start,
{
    broadcast use lemma_physical_same;

    if start < end {
        lemma_save_regs_same(s.save_reg_at(set, start), set, start + 1, end);
    }
}

proof fn lemma_pass_block_args_same(s: State, args: Seq<CCLoc>, count: nat)
    ensures
        s.same_labels(s.pass_block_args(args, count)),
    decreases count,
{
    broadcast use lemma_copy_same;

    if count > 0 && args.len() > 0 {
        let dst = args.last();
        let i = args.len() - 1;
        let u = s.pass_block_arg(dst, i);
        if let CCLoc::Reg(r) = dst {
            let n = s.stack.len() as int;
            lemma_save_regs_same(s.need(i < n), SaveSet::One(r), n - 1 - i, n);
        }
        assert(s.same_labels(u));
        lemma_pass_block_args_same(u, args.drop_last(), (count - 1) as nat);
    }
}

proof fn lemma_depth_same(s: State, depth: u32)
    ensures
        s.same_labels(s.set_stack_depth(depth)),
{
    broadcast use lemma_emit_same;

    let pushes = Seq::new((depth - s.depth) as nat, |i: int| Insn::Push(Operand::rq(rq::RAX)));
    lemma_append_same(s.code, pushes);
    let (s1, trash) = s.take(GPRType::Rq);
    let pops = Seq::new((s.depth - depth) as nat, |i: int| Insn::Pop(trash.id()));
    lemma_append_same(s1.code, pops);
}

/// Moving values about, and starting and leaving blocks, neither makes nor defines a label.
pub proof fn labels_in_blocks(
    s: State,
    i: u32,
    j: u32,
    vals: Seq<ValueLocation>,
    args: Seq<CCLoc>,
    count: nat,
    depth: u32,
)
    ensures
        s.same_labels(s.enter(vals, depth)),
        s.same_labels(s.drop_range(i, j)),
        s.same_labels(s.pick(i)),
        s.same_labels(s.swap(i)),
        s.same_labels(s.serialize(count).0),
        s.same_labels(s.pass_block_args(args, count).set_stack_depth(depth)),
{
    lemma_mark_all_only(State { regs: RegState::initial(), ..s }, vals);
    let n = s.stack.len() as int;
    if i <= j {
        let u = State {
            stack: s.stack.take(n - 1 - j) + s.stack.skip(n - i),
            ok: s.ok && j < n,
            ..s
        };
        lemma_free_all_same(u, s.stack.subrange(n - 1 - j, n - i));
    }
    lemma_serialize_same(s, count);
    lemma_pass_block_args_same(s, args, count);
    lemma_depth_same(s.pass_block_args(args, count), depth);
}

/// A label that is created differs from those of all functions and from all shared ones, and is
/// not defined yet. The labels stay sound.
pub proof fn labels_when_created(s: State, starts: Seq<FuncStart>)
    requires
        s.labels_are_sound(starts),
        s.create_label().0.ok,
    ensures
        ({
            let (t, label) = s.create_label();
            &&& t.labels_are_sound(starts)
            &&& label.id < t.label_count
            &&& !t.code.contains(Insn::DefineLabel(label))
            &&& is_plain(label, t.labels, starts)
        }),
{
    lemma_definitions(s.code, s.create_label().1);
}

/// Defining a label that was created keeps the labels sound.
pub proof fn labels_when_defined(s: State, label: Label, starts: Seq<FuncStart>)
    requires
        s.labels_are_sound(starts),
        label.id < s.label_count,
        !s.code.contains(Insn::DefineLabel(label)),
        is_plain(label, s.labels, starts),
    ensures
        s.emit(Insn::DefineLabel(label)).labels_are_sound(starts),
{
    lemma_definitions(s.code, label);
    lemma_defined(s.code, label, s.label_count, s.labels, starts, s.labels, starts);
}

/// Asking for a shared label keeps the labels sound.
pub proof fn labels_when_shared(s: State, which: SharedLabel, starts: Seq<FuncStart>)
    requires
        s.labels_are_sound(starts),
        s.shared_label(which).0.ok,
    ensures
        s.shared_label(which).0.labels_are_sound(starts),
{
    let (t, label) = s.shared_label(which);
    if s.labels.get(which) is None {
        assert forall|other: SharedLabel| other != which implies #[trigger] t.labels.get(other)
            == s.labels.get(other) by {}
        assert(t.labels.get(which) == Some(PendingLabel { label, is_defined: false }));
        assert(!definitions(s.code).contains(label));
        assert forall|a: SharedLabel, b: SharedLabel|
            (#[trigger] t.labels.get(a)) is Some && (#[trigger] t.labels.get(b)) is Some && a
                != b implies t.labels.get(a)->0.label != t.labels.get(b)->0.label by {
            assert(s.labels.get(a) is Some ==> s.labels.get(a)->0.label.id < s.label_count);
            assert(s.labels.get(b) is Some ==> s.labels.get(b)->0.label.id < s.label_count);
        }
        assert forall|i: int, a: SharedLabel|
            0 <= i < starts.len() && (#[trigger] t.labels.get(a)) is Some implies (
        #[trigger] starts[i]).1 != t.labels.get(a)->0.label by {
            assert(starts[i].1.id < s.label_count);
            assert(s.labels.get(a) is Some ==> starts[i].1 != s.labels.get(a)->0.label);
        }
    }
}

/// The operators on floating-point numbers keep the labels sound.
pub proof fn labels_in_float_operators(
    s: State,
    op: SseOp,
    single: Option<Ieee32>,
    double: Option<Ieee64>,
    starts: Seq<FuncStart>,
)
    requires
        s.labels_are_sound(starts),
    ensures
        s.binop_f32(op, single).labels_are_sound(starts),
        s.binop_f64(op, double).labels_are_sound(starts),
        s.truncate_f32().labels_are_sound(starts),
        s.convert_i32_s(single).labels_are_sound(starts),
        s.convert_i32_u(single).labels_are_sound(starts),
        s.neg_f32().ok ==> s.neg_f32().labels_are_sound(starts),
        s.neg_f64().ok ==> s.neg_f64().labels_are_sound(starts),
        s.abs_f32().ok ==> s.abs_f32().labels_are_sound(starts),
        s.abs_f64().ok ==> s.abs_f64().labels_are_sound(starts),
{
    let f32_ready = s.need(s.both_const(BinOp::F32(op)) ==> single is Some);
    let f64_ready = s.need(s.both_const(BinOp::F64(op)) ==> double is Some);
    lemma_binop_same(f32_ready, BinOp::F32(op), Value::F32(single->0));
    lemma_binop_same(f64_ready, BinOp::F64(op), Value::F64(double->0));
    lemma_convert_same(s, single);
    lemma_sign_sound(s, SharedLabel::NegF32, starts);
    lemma_sign_sound(s, SharedLabel::NegF64, starts);
    lemma_sign_sound(s, SharedLabel::AbsF32, starts);
    lemma_sign_sound(s, SharedLabel::AbsF64, starts);
}

proof fn lemma_convert_same(s: State, folded: Option<Ieee32>)
    ensures
        s.same_labels(s.truncate_f32()),
        s.same_labels(s.convert_i32_s(folded)),
        s.same_labels(s.convert_i32_u(folded)),
{
    broadcast use {lemma_emit_same, lemma_reg_same};

}

/// The operators that change the sign, by the constant that they need.
proof fn lemma_sign_sound(s: State, which: SharedLabel, starts: Seq<FuncStart>)
    requires
        s.labels_are_sound(starts),
        is_const(which),
    ensures
        ({
            let t = match which {
                SharedLabel::NegF32 => s.neg_f32(),
                SharedLabel::NegF64 => s.neg_f64(),
                SharedLabel::AbsF32 => s.abs_f32(),
                _ => s.abs_f64(),
            };
            t.ok ==> t.labels_are_sound(starts)
        }),
{
    broadcast use {lemma_emit_same, lemma_temp_same};

    let t = match which {
        SharedLabel::NegF32 => s.neg_f32(),
        SharedLabel::NegF64 => s.neg_f64(),
        SharedLabel::AbsF32 => s.abs_f32(),
        _ => s.abs_f64(),
    };
    if t.ok {
        let (s1, val) = s.pop();
        let (s2, reg) = s1.into_temp_reg(Some(GPRType::Rx), val);
        let (s3, label) = s2.shared_label(which);
        if s3.ok {
            labels_when_shared(s2, which, starts);
        }
    }
}

proof fn lemma_target_sound(s: State, target: BrTarget<Label>, starts: Seq<FuncStart>)
    requires
        s.labels_are_sound(starts),
        s.target_to_label(target).0.ok,
    ensures
        s.target_to_label(target).0.labels_are_sound(starts),
{
    if target is Return {
        labels_when_shared(s, SharedLabel::Ret, starts);
    }
}

proof fn lemma_jumps_sound(s: State, targets: Seq<BrTarget<Label>>, starts: Seq<FuncStart>)
    requires
        s.labels_are_sound(starts),
        s.jumps(targets).ok,
    ensures
        s.jumps(targets).labels_are_sound(starts),
    decreases targets.len(),
{
    broadcast use lemma_emit_same;

    if targets.len() > 0 {
        let u = s.jumps(targets.drop_last());
        lemma_jumps_sound(s, targets.drop_last(), starts);
        lemma_target_sound(u, targets.last(), starts);
    }
}

/// The branches keep the labels sound.
pub proof fn labels_in_branches(
    s: State,
    target: BrTarget<Label>,
    val: ValueLocation,
    label: Label,
    cond: Cond,
    targets: Seq<BrTarget<Label>>,
    default: Option<BrTarget<Label>>,
    starts: Seq<FuncStart>,
)
    requires
        s.labels_are_sound(starts),
    ensures
        s.br(target).labels_are_sound(starts),
        s.br_if_start(target).0.ok ==> s.br_if_start(target).0.labels_are_sound(starts),
        s.br_if_end(val, label, cond).labels_are_sound(starts),
        s.br_table_end(val, targets, default).ok ==> s.br_table_end(
            val,
            targets,
            default,
        ).labels_are_sound(starts),
{
    broadcast use {lemma_emit_same, lemma_reg_same};

    if s.br_if_start(target).0.ok {
        lemma_target_sound(s.pop().0, target, starts);
    }
    if s.br_table_end(val, targets, default).ok {
        if val.imm_i32() is None && targets.len() > 0 {
            let (s1, reg) = s.into_temp_reg(Some(GPRType::Rq), val);
            let s2 = s1.enter_table(reg.id(), targets.len() as usize);
            let s3 = s2.jumps(targets);
            lemma_table_same(s, val, targets.len() as usize);
            assert(s3.ok);
            lemma_jumps_sound(s2, targets, starts);
        }
    }
}

proof fn lemma_table_same(s: State, selector: ValueLocation, count: usize)
    ensures
        ({
            let (s1, reg) = s.into_temp_reg(Some(GPRType::Rq), selector);
            s.same_labels(s1.enter_table(reg.id(), count))
        }),
{
    broadcast use {lemma_emit_same, lemma_immediate_same, lemma_temp_same};

}

/// Traps, returns, calls of functions of the host and messages neither make nor define a label.
pub proof fn labels_in_other_code(s: State, host_fn: i64, len: i64, ptr: i64, imm: Value)
    ensures
        s.same_labels(s.emit(Insn::Ud2)),
        s.same_labels(s.emit(Insn::Ret)),
        s.same_labels(
            s.emit(
                Insn::Mov { w: Width::Q, dst: Operand::rq(rq::RAX), src: Operand::Imm(host_fn) },
            ).emit(Insn::CallReg(rq::RAX)).emit(Insn::Ret),
        ),
        s.same_labels(s.emit_all(print_code(host_fn, len, ptr))),
        s.same_labels(s.push(ValueLocation::Immediate(imm))),
{
    broadcast use lemma_emit_same;

    lemma_append_same(s.code, print_code(host_fn, len, ptr));
}

/// Defining a shared label, if it is needed and not defined yet, keeps the labels sound.
proof fn lemma_define_shared_sound(s: State, which: SharedLabel, starts: Seq<FuncStart>)
    requires
        s.labels_are_sound(starts),
    ensures
        s.define_shared(which).labels_are_sound(starts),
{
    broadcast use lemma_emit_same;

    if let Some(PendingLabel { label, is_defined: false }) = s.labels.get(which) {
        let s1 = if is_const(which) {
            s.emit(Insn::Align(16))
        } else {
            s
        };
        let now = s.labels.with(which, PendingLabel { label, is_defined: true });
        assert(s.labels.get(which)->0.label == label);
        assert forall|other: SharedLabel| other != which implies #[trigger] now.get(other)
            == s.labels.get(other) by {}
        assert(now.get(which) == Some(PendingLabel { label, is_defined: true }));
        lemma_defined(s1.code, label, s.label_count, s.labels, starts, now, starts);
        lemma_append_same(s1.emit(Insn::DefineLabel(label)).code, shared_code(which));
    }
}

/// Defining one shared label leaves the others as they are.
proof fn lemma_define_shared_only(s: State, which: SharedLabel, other: SharedLabel)
    ensures
        s.define_shared(which).labels.get(other) == (if which == other && s.labels.get(
            other,
        ) is Some {
            Some(PendingLabel { label: s.labels.get(other)->0.label, is_defined: true })
        } else {
            s.labels.get(other)
        }),
{
}

/// Whether `t` has the shared label `which` defined if `s` needs it.
spec fn settles(s: State, t: State, which: SharedLabel) -> bool {
    s.labels.get(which) is Some ==> t.labels.get(which) == Some(
        PendingLabel { label: s.labels.get(which)->0.label, is_defined: true },
    )
}

proof fn lemma_epilogue_settles(s: State, which: SharedLabel)
    ensures
        settles(s, s.epilogue(), which),
{
    let s1 = s.define_shared(SharedLabel::Trap);
    let s2 = s1.define_shared(SharedLabel::Ret);
    let s3 = s2.define_shared(SharedLabel::NegF32);
    let s4 = s3.define_shared(SharedLabel::NegF64);
    let s5 = s4.define_shared(SharedLabel::AbsF32);
    lemma_define_shared_only(s, SharedLabel::Trap, which);
    lemma_define_shared_only(s1, SharedLabel::Ret, which);
    lemma_define_shared_only(s2, SharedLabel::NegF32, which);
    lemma_define_shared_only(s3, SharedLabel::NegF64, which);
    lemma_define_shared_only(s4, SharedLabel::AbsF32, which);
    lemma_define_shared_only(s5, SharedLabel::AbsF64, which);
}

proof fn lemma_epilogue_sound(s: State, starts: Seq<FuncStart>)
    requires
        s.labels_are_sound(starts),
    ensures
        s.epilogue().labels_are_sound(starts),
{
    let s1 = s.define_shared(SharedLabel::Trap);
    let s2 = s1.define_shared(SharedLabel::Ret);
    let s3 = s2.define_shared(SharedLabel::NegF32);
    let s4 = s3.define_shared(SharedLabel::NegF64);
    let s5 = s4.define_shared(SharedLabel::AbsF32);
    lemma_define_shared_sound(s, SharedLabel::Trap, starts);
    lemma_define_shared_sound(s1, SharedLabel::Ret, starts);
    lemma_define_shared_sound(s2, SharedLabel::NegF32, starts);
    lemma_define_shared_sound(s3, SharedLabel::NegF64, starts);
    lemma_define_shared_sound(s4, SharedLabel::AbsF32, starts);
    lemma_define_shared_sound(s5, SharedLabel::AbsF64, starts);
}

/// The epilogue keeps the labels sound, and defines every shared label that is needed.
pub proof fn labels_in_epilogue(s: State, starts: Seq<FuncStart>, which: SharedLabel)
    requires
        s.labels_are_sound(starts),
    ensures
        s.epilogue().labels_are_sound(starts),
        s.labels.get(which) is Some ==> s.epilogue().code.contains(
            Insn::DefineLabel(s.labels.get(which)->0.label),
        ),
{
    lemma_epilogue_sound(s, starts);
    if s.labels.get(which) is Some {
        lemma_epilogue_settles(s, which);
        lemma_definitions(s.epilogue().code, s.labels.get(which)->0.label);
    }
}

proof fn lemma_pass_all_outgoing_same(
    s: State,
    locs: Seq<CCLoc>,
    depth: u32,
    pending: Seq<Move>,
)
    ensures
        s.same_labels(s.pass_all_outgoing(locs, depth, pending).0),
    decreases locs.len(),
{
    broadcast use {lemma_emit_same, lemma_copy_same, lemma_reg_same, lemma_physical_same};

    if locs.len() > 0 {
        let (u, q) = s.pass_outgoing(locs.last(), depth, pending);
        assert(s.same_labels(u));
        lemma_pass_all_outgoing_same(u, locs.drop_last(), depth, q);
    }
}

proof fn lemma_try_moves_same(s: State, moves: Seq<Move>, kept: Seq<Move>)
    ensures
        s.same_labels(s.try_moves(moves, kept).0),
    decreases moves.len(),
{
    broadcast use lemma_copy_same;

    if moves.len() > 0 {
        let (u, left) = s.try_move(moves.first(), kept);
        assert(s.same_labels(u));
        lemma_try_moves_same(u, moves.drop_first(), left);
    }
}

proof fn lemma_make_moves_same(s: State, moves: Seq<Move>, tries: nat)
    ensures
        s.same_labels(s.make_moves(moves, tries)),
    decreases tries,
{
    if moves.len() > 0 && tries > 0 {
        let (u, kept) = s.try_moves(moves, Seq::empty());
        lemma_try_moves_same(s, moves, Seq::empty());
        lemma_make_moves_same(u, kept, (tries - 1) as nat);
    }
}

proof fn lemma_release_all_same(s: State, vals: Seq<ValueLocation>)
    ensures
        s.same_labels(s.release_all(vals)),
    decreases vals.len(),
{
    if vals.len() > 0 {
        lemma_release_all_same(s, vals.drop_last());
    }
}

proof fn lemma_push_returns_same(s: State, rets: Seq<CCLoc>)
    ensures
        s.same_labels(s.push_returns(rets)),
    decreases rets.len(),
{
    if rets.len() > 0 {
        lemma_push_returns_same(s, rets.drop_last());
    }
}

proof fn lemma_pass_outgoing_args_same(s: State, args: Seq<CCLoc>)
    ensures
        s.same_labels(s.pass_outgoing_args(args)),
{
    let n = args.len();
    lemma_save_regs_same(s.need(n <= s.stack.len()), SaveSet::Volatile, 0, s.stack.len() - n);
    let s1 = s.save_volatile(n);
    let depth = (s1.depth + stack_space(args)) as u32;
    let s2 = s1.need(s1.depth + stack_space(args) <= u32::MAX);
    lemma_pass_all_outgoing_same(s2, args, depth, Seq::empty());
    let (s3, pending) = s2.pass_all_outgoing(args, depth, Seq::empty());
    lemma_make_moves_same(s3, pending, 9);
    let s4 = s3.make_moves(pending, 9);
    lemma_depth_same(s4, depth);
    lemma_release_all_same(s4.set_stack_depth(depth), as_values(args));
}

/// The calls keep the labels sound.
pub proof fn labels_in_calls<M: ModuleContext>(
    s: State,
    module: M,
    label: Label,
    type_id: u32,
    function: u32,
    name: ir::ExternalName,
    args: Seq<CCLoc>,
    rets: Seq<CCLoc>,
    starts: Seq<FuncStart>,
)
    requires
        s.labels_are_sound(starts),
    ensures
        s.call_direct(label, args, rets).labels_are_sound(starts),
        s.call_relocated(function, name, args, rets).labels_are_sound(starts),
        s.call_indirect(module, type_id, args, rets).ok ==> s.call_indirect(
            module,
            type_id,
            args,
            rets,
        ).labels_are_sound(starts),
{
    broadcast use lemma_emit_same;

    let u = s.pass_outgoing_args(args);
    lemma_pass_outgoing_args_same(s, args);
    lemma_push_returns_same(u.emit(Insn::Call(label)), rets);
    let (v, temp) = u.take(GPRType::Rq);
    let called = v.emit(
        Insn::Mov {
            w: Width::Q,
            dst: Operand::rq(temp.id()),
            src: Operand::Imm(UNKNOWN_ADDRESS as i64),
        },
    ).emit(Insn::CallReg(temp.id())).release(temp);
    lemma_push_returns_same(called, rets);
    if s.call_indirect(module, type_id, args, rets).ok {
        lemma_call_indirect_sound(s, module, type_id, args, rets, starts);
    }
}

proof fn lemma_call_indirect_sound<M: ModuleContext>(
    s: State,
    module: M,
    type_id: u32,
    args: Seq<CCLoc>,
    rets: Seq<CCLoc>,
    starts: Seq<FuncStart>,
)
    requires
        s.labels_are_sound(starts),
        s.call_indirect(module, type_id, args, rets).ok,
    ensures
        s.call_indirect(module, type_id, args, rets).labels_are_sound(starts),
{
    broadcast use lemma_temp_same;

    let vals = as_values(args);
    let s0 = s.mark_all(vals);
    lemma_mark_all_only(s, vals);
    let (s1, val) = s0.pop();
    let (s2, callee) = s1.into_temp_reg(Some(GPRType::Rq), val);
    let (s3, temp0) = s2.take(GPRType::Rq);
    let (s4, temp1) = s3.take(GPRType::Rq);
    lemma_release_all_same(s4, vals);
    let s5 = s4.release_all(vals);
    lemma_pass_outgoing_args_same(s5, args);
    let s6 = s5.pass_outgoing_args(args);
    let (s7, fail) = s6.shared_label(SharedLabel::Trap);
    let code = call_indirect_code(module, type_id, callee.id(), temp0.id(), temp1.id(), fail);
    let s8 = s7.emit_all(code).release(temp0).release(temp1).release(callee);
    lemma_push_returns_ok(s8, rets, 0);
    assert(rets.take(0) =~= Seq::empty());
    labels_when_shared(s6, SharedLabel::Trap, starts);
    lemma_append_same(s7.code, code);
    lemma_push_returns_same(s8, rets);
}

} // verus!
