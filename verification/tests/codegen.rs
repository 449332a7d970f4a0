//! The instructions that are generated, and the parts of the generator that can be looked at
//! without running them.

use cranelift_codegen::ir;
use dynasmrt::x64::Assembler;
use dynasmrt::DynasmApi;

use lightbeam_backend::arith::{i64_to_i32, u64_to_i64};
use lightbeam_backend::assembly::{Label, Labels, PendingLabel};
use lightbeam_backend::compare::Relation;
use lightbeam_backend::context::Context;
use lightbeam_backend::insn::{
    AluOp, Cond, Insn, LocalLabel, Mem, Operand, Precision, SseOp, Width,
};
use lightbeam_backend::location::{
    arg_locs, ret_locs, BlockState, CCLoc, CallingConvention, StackDepth, StackValue,
    ValueLocation, VirtualCallingConvention,
};
use lightbeam_backend::magic::{
    get_imported_memory32_grow_name, get_imported_memory32_size_name, get_memory32_grow_name,
    get_memory32_size_name,
};
use lightbeam_backend::microwasm::{BrTarget, Ieee32, Ieee64, SignlessType, Value};
use lightbeam_backend::module_context::{ModuleContext, VmOffsets};
use lightbeam_backend::registers::{rq, GPRType, Registers, GPR};
use lightbeam_backend::session::{CodeGenSession, Error, TranslatedCodeSection};

const MODULE: VmOffsets = VmOffsets {
    memories: 32,
    tables: 64,
    table_length: 8,
    definition_size: 16,
    globals: 128,
    global_size: 16,
    imported_globals: 2,
    signatures: 256,
    signature_size: 4,
    element_size: 24,
    element_type_index: 8,
    element_func_ptr: 0,
};

type Op = fn(&mut Context<'_, VmOffsets>);

fn reg(r: u8) -> ValueLocation {
    ValueLocation::Reg(GPR::Rq(r))
}

fn xmm(r: u8) -> ValueLocation {
    ValueLocation::Reg(GPR::Rx(r))
}

fn rq_op(r: u8) -> Operand {
    Operand::Gpr(GPR::Rq(r))
}

fn rx_op(r: u8) -> Operand {
    Operand::Gpr(GPR::Rx(r))
}

fn slot(disp: i32) -> Operand {
    Operand::Mem(Mem { base: rq::RSP, index: None, disp })
}

fn imm32(v: i32) -> ValueLocation {
    ValueLocation::Immediate(Value::I32(v))
}

fn imm64(v: i64) -> ValueLocation {
    ValueLocation::Immediate(Value::I64(v))
}

fn single(x: f32) -> Value {
    Value::F32(Ieee32(x.to_bits()))
}

/// What `op` generates with `stack` on the stack, and the stack after it.
fn generate(stack: Vec<ValueLocation>, depth: u32, op: Op) -> (Vec<Insn>, Vec<ValueLocation>) {
    let mut session = CodeGenSession::new(3, &MODULE);
    let mut ctx = session.new_context(0);
    ctx.set_state(VirtualCallingConvention { stack, depth: StackDepth(depth) });
    op(&mut ctx);
    (ctx.out.code[1..].to_vec(), ctx.block_state.stack.clone())
}

#[test]
fn registers_at_the_start() {
    let regs = Registers::new();
    assert_eq!(regs.free_64(), 8);
    assert_eq!(regs.free_128(), 16);
    assert!(regs.is_free(GPR::Rq(rq::RAX)));
    assert!(!regs.is_free(GPR::Rq(rq::RDI)));
    assert!(!regs.is_free(GPR::Rq(rq::RSP)));
    assert!(regs.is_free(GPR::Rx(15)));
    assert_eq!(regs.num_usages(GPR::Rq(rq::RCX)), 0);
}

#[test]
fn registers_are_taken_from_the_lowest_up() {
    let mut regs = Registers::new();
    let taken: Vec<GPR> = (0..8).map(|_| regs.take(GPRType::Rq)).collect();
    let expected: Vec<GPR> = [
        rq::RAX, rq::RCX, rq::RDX, rq::RSI, rq::R8, rq::R9, rq::R10, rq::R11,
    ]
    .iter()
    .map(|&r| GPR::Rq(r))
    .collect();
    assert_eq!(taken, expected);
    assert_eq!(regs.free_64(), 0);
    assert_eq!(regs.take(GPRType::Rx), GPR::Rx(0));
    assert_eq!(regs.free_128(), 15);
}

#[test]
fn register_is_free_when_all_uses_are_given_back() {
    let mut regs = Registers::default();
    let gpr = regs.take(GPRType::Rq);
    regs.mark_used(gpr);
    assert_eq!(regs.num_usages(gpr), 2);
    regs.release(gpr);
    assert!(!regs.is_free(gpr));
    regs.release(gpr);
    assert!(regs.is_free(gpr));
    assert_eq!(regs.take(GPRType::Rq), gpr);
}

#[test]
fn register_files() {
    assert_eq!(GPR::Rq(3).type_(), GPRType::Rq);
    assert_eq!(GPR::Rx(3).type_(), GPRType::Rx);
    assert_eq!(GPR::Rq(3).rq(), Some(3));
    assert_eq!(GPR::Rx(3).rq(), None);
    assert_eq!(GPR::Rx(4).rx(), Some(4));
    assert_eq!(GPR::Rq(4).rx(), None);
    assert_eq!(GPRType::from(SignlessType::I64), GPRType::Rq);
    assert_eq!(GPRType::from(SignlessType::F32), GPRType::Rx);
}

#[test]
fn places_of_arguments() {
    let types = [
        SignlessType::I32,
        SignlessType::F64,
        SignlessType::I64,
        SignlessType::I32,
        SignlessType::F32,
        SignlessType::I32,
        SignlessType::I32,
        SignlessType::I32,
        SignlessType::I64,
    ];
    assert_eq!(
        arg_locs(&types),
        vec![
            CCLoc::Reg(GPR::Rq(rq::RSI)),
            CCLoc::Reg(GPR::Rx(0)),
            CCLoc::Reg(GPR::Rq(rq::RDX)),
            CCLoc::Reg(GPR::Rq(rq::RCX)),
            CCLoc::Reg(GPR::Rx(1)),
            CCLoc::Reg(GPR::Rq(rq::R8)),
            CCLoc::Reg(GPR::Rq(rq::R9)),
            CCLoc::Stack(0),
            CCLoc::Stack(1),
        ]
    );
}

#[test]
fn places_of_results() {
    let types = [SignlessType::F32, SignlessType::I64, SignlessType::I32, SignlessType::F64];
    assert_eq!(
        ret_locs(&types),
        vec![
            CCLoc::Reg(GPR::Rx(0)),
            CCLoc::Reg(GPR::Rq(rq::RAX)),
            CCLoc::Reg(GPR::Rq(rq::RDX)),
            CCLoc::Reg(GPR::Rx(1)),
        ]
    );
}

#[test]
fn stack_depth_is_counted() {
    let mut depth = StackDepth::default();
    depth.reserve(5);
    depth.free(2);
    assert_eq!(depth, StackDepth(3));
    let state = BlockState::default();
    assert_eq!(state.depth, StackDepth(0));
    assert!(state.stack.is_empty());
}

#[test]
fn literals() {
    assert_eq!(imm32(4).immediate(), Some(Value::I32(4)));
    assert_eq!(reg(1).immediate(), None);
    assert_eq!(imm32(4).imm_i32(), Some(4));
    assert_eq!(imm32(4).imm_i64(), None);
    assert_eq!(imm64(-4).imm_i64(), Some(-4));
    let half = ValueLocation::Immediate(single(0.5));
    assert_eq!(half.imm_f32(), Some(Ieee32(0x3f00_0000)));
    assert_eq!(half.imm_f64(), None);
    let double = ValueLocation::Immediate(Value::F64(Ieee64(7)));
    assert_eq!(double.imm_f64(), Some(Ieee64(7)));
    assert_eq!(Value::I32(-1).as_bytes(), 0xffff_ffff);
    assert_eq!(Value::I64(-1).as_bytes(), -1);
    assert_eq!(Value::I32(-1).as_int(), Some(-1));
    assert_eq!(single(1.0).as_int(), None);
}

#[test]
fn values_have_locations_unless_they_are_popped() {
    assert_eq!(StackValue::Value(reg(2)).location(), Some(reg(2)));
    assert_eq!(StackValue::Pop.location(), None);
    assert_eq!(ValueLocation::from(CCLoc::Stack(-3)), ValueLocation::Stack(-3));
    assert_eq!(ValueLocation::from(CCLoc::Reg(GPR::Rx(2))), xmm(2));
}

#[test]
fn narrowing_of_constants() {
    assert_eq!(i64_to_i32(i32::MIN as i64), Some(i32::MIN));
    assert_eq!(i64_to_i32(i32::MAX as i64 + 1), None);
    assert_eq!(u64_to_i64(5), Some(5));
    assert_eq!(u64_to_i64(1 << 63), None);
}

#[test]
fn relations_and_their_reverses() {
    for rel in [
        Relation::Eq,
        Relation::Ne,
        Relation::LtU,
        Relation::LeU,
        Relation::GtU,
        Relation::GeU,
        Relation::LtS,
        Relation::LeS,
        Relation::GtS,
        Relation::GeS,
    ] {
        for (a, b) in [(1, 2), (2, 1), (-1, 1), (7, 7)] {
            assert_eq!(rel.holds_i32(a, b), rel.reverse().holds_i32(b, a));
            assert_eq!(rel.holds_i64(a as i64, b as i64), rel.holds_i32(a, b));
        }
    }
    assert!(Relation::GtU.holds_i32(-1, 1));
    assert!(Relation::LtS.holds_i64(-1, 1));
    assert_eq!(Relation::LtU.cond(), Cond::B);
    assert_eq!(Relation::GeS.cond(), Cond::Ge);
}

#[test]
fn names_of_memory_functions() {
    assert_eq!(get_memory32_grow_name(), ir::ExternalName::user(1, 0));
    assert_eq!(get_imported_memory32_grow_name(), ir::ExternalName::user(1, 1));
    assert_eq!(get_memory32_size_name(), ir::ExternalName::user(1, 2));
    assert_eq!(get_imported_memory32_size_name(), ir::ExternalName::user(1, 3));
    match get_memory32_size_name() {
        ir::ExternalName::User { namespace, index } => assert_eq!((namespace, index), (1, 2)),
        other => panic!("{:?}", other),
    }
}

#[test]
fn memory_functions_have_different_names() {
    let names = [
        get_memory32_grow_name(),
        get_imported_memory32_grow_name(),
        get_memory32_size_name(),
        get_imported_memory32_size_name(),
    ];
    for i in 0..names.len() {
        for j in 0..i {
            assert_ne!(names[i], names[j]);
        }
    }
}

#[test]
fn labels_are_defined_once() {
    let mut session = CodeGenSession::new(2, &MODULE);
    for idx in 0..2 {
        let mut ctx = session.new_context(idx);
        ctx.start_function(&[SignlessType::F32, SignlessType::I32]);
        let label = ctx.create_label();
        ctx.br_if_true(BrTarget::Return, |_c: &mut Context<'_, VmOffsets>| {});
        ctx.f32_neg();
        ctx.define_label(label);
        ctx.epilogue();
    }
    let mut defined = vec![];
    for insn in &session.out.code {
        if let Insn::DefineLabel(label) = *insn {
            assert!(label.id < session.out.label_count);
            assert!(!defined.contains(&label));
            defined.push(label);
        }
    }
    // Two functions, two labels of their own, the return and the mask of the sign.
    assert_eq!(defined.len(), 6);
}

#[test]
fn offsets_in_the_context() {
    assert_eq!(MODULE.vmctx_vmmemory_definition_base(1), 48);
    assert_eq!(MODULE.vmctx_vmtable_definition_base(0), 64);
    assert_eq!(MODULE.vmctx_vmtable_definition_current_elements(1), 88);
    assert_eq!(MODULE.vmctx_vmshared_signature_id(3), 268);
    assert_eq!(MODULE.defined_global_index(1), None);
    assert_eq!(MODULE.defined_global_index(5), Some(3));
    assert_eq!(MODULE.vmctx_vmglobal_definition(3), 176);
}

#[test]
fn pending_labels() {
    let label = Label { id: 4 };
    assert_eq!(PendingLabel::undefined(label).as_undefined(), Some(label));
    assert_eq!(PendingLabel::defined(label).as_undefined(), None);
    assert_eq!(PendingLabel::from(label), PendingLabel::undefined(label));
    assert_eq!(Labels::default().trap, None);
}

#[test]
fn addition_of_a_constant() {
    let (code, stack) = generate(vec![reg(rq::RSI), imm32(5)], 1, |c| c.i32_add());
    assert_eq!(
        code,
        vec![Insn::Alu { op: AluOp::Add, w: Width::D, dst: rq::RSI, src: Operand::Imm(5) }]
    );
    assert_eq!(stack, vec![reg(rq::RSI)]);
}

#[test]
fn shared_operand_is_copied() {
    let stack = vec![reg(rq::RSI), reg(rq::RSI), ValueLocation::Stack(-1)];
    let (code, stack) = generate(stack, 3, |c| c.i64_sub());
    assert_eq!(
        code,
        vec![
            Insn::Mov { w: Width::Q, dst: rq_op(rq::RAX), src: rq_op(rq::RSI) },
            Insn::Alu { op: AluOp::Sub, w: Width::Q, dst: rq::RAX, src: slot(16) },
        ]
    );
    assert_eq!(stack, vec![reg(rq::RSI), reg(rq::RAX)]);
}

#[test]
fn constants_are_folded() {
    let (code, stack) = generate(vec![imm32(i32::MAX), imm32(1)], 1, |c| c.i32_add());
    assert!(code.is_empty());
    assert_eq!(stack, vec![imm32(i32::MIN)]);
    let (code, stack) = generate(vec![imm64(6), imm64(7)], 1, |c| c.i64_mul());
    assert!(code.is_empty());
    assert_eq!(stack, vec![imm64(42)]);
    let (code, stack) = generate(vec![imm32(-1), imm32(1)], 1, |c| c.i32_lt_u());
    assert!(code.is_empty());
    assert_eq!(stack, vec![imm32(0)]);
    let (code, stack) = generate(vec![imm32(-7), imm32(2)], 1, |c| c.i32_rem_s());
    assert!(code.is_empty());
    assert_eq!(stack, vec![imm32(-1)]);
    let (code, stack) = generate(vec![imm32(-1)], 1, |c| c.i32_extend_u());
    assert!(code.is_empty());
    assert_eq!(stack, vec![imm64(0xffff_ffff)]);
    let (code, stack) = generate(vec![imm32(-1)], 1, |c| c.i32_extend_s());
    assert!(code.is_empty());
    assert_eq!(stack, vec![imm64(-1)]);
    let (code, stack) = generate(vec![imm32(0)], 1, |c| c.i32_eqz());
    assert!(code.is_empty());
    assert_eq!(stack, vec![imm32(1)]);
}

#[test]
fn division_by_a_constant_zero_traps() {
    let (code, stack) = generate(vec![imm32(7), imm32(0)], 1, |c| c.i32_div_u());
    assert_eq!(code, vec![Insn::Ud2]);
    assert_eq!(stack.len(), 1);
}

#[test]
fn selection_with_a_known_condition_needs_no_code() {
    let stack = vec![reg(rq::RSI), reg(rq::RDX), imm32(1)];
    assert_eq!(generate(stack, 1, |c| c.select()), (vec![], vec![reg(rq::RSI)]));
    let stack = vec![reg(rq::RSI), reg(rq::RDX), imm32(0)];
    assert_eq!(generate(stack, 1, |c| c.select()), (vec![], vec![reg(rq::RDX)]));
}

#[test]
fn float_operators() {
    let (code, stack) = generate(vec![xmm(3), xmm(4)], 1, |c| c.f32_add(None));
    assert_eq!(
        code,
        vec![Insn::Sse { op: SseOp::Add, prec: Precision::Single, dst: 3, src: rx_op(4) }]
    );
    assert_eq!(stack, vec![xmm(3)]);
    let (code, stack) = generate(vec![xmm(3), ValueLocation::Stack(-1)], 2, |c| c.f64_div(None));
    assert_eq!(
        code,
        vec![Insn::Sse { op: SseOp::Div, prec: Precision::Double, dst: 3, src: slot(8) }]
    );
    assert_eq!(stack, vec![xmm(3)]);
}

#[test]
fn float_constants_are_handed_out_and_taken_back() {
    let mut session = CodeGenSession::new(1, &MODULE);
    let mut ctx = session.new_context(0);
    ctx.const_(single(1.5));
    assert_eq!(ctx.f32_constants(), None);
    ctx.const_(single(2.0));
    let (a, b) = ctx.f32_constants().unwrap();
    let sum = f32::from_bits(a.bits()) + f32::from_bits(b.bits());
    ctx.f32_add(Some(Ieee32(sum.to_bits())));
    assert_eq!(ctx.block_state.stack, vec![ValueLocation::Immediate(single(3.5))]);
    ctx.const_(Value::I32(-2));
    assert_eq!(ctx.i32_constant(), Some(-2));
    ctx.f32_convert_from_i32_s(Some(Ieee32((-2.0f32).to_bits())));
    assert_eq!(ctx.block_state.stack[1], ValueLocation::Immediate(single(-2.0)));
    assert_eq!(ctx.f64_constants(), None);
    assert_eq!(ctx.out.code.len(), 1);
}

#[test]
fn negation_uses_one_constant() {
    let mut session = CodeGenSession::new(1, &MODULE);
    let mut ctx = session.new_context(0);
    let stack = vec![xmm(0), xmm(1)];
    ctx.set_state(VirtualCallingConvention { stack, depth: StackDepth(1) });
    ctx.f32_neg();
    ctx.swap(1);
    ctx.f32_neg();
    let label = ctx.out.labels.neg_const_f32.unwrap().label;
    ctx.ret();
    ctx.epilogue();
    ctx.epilogue();
    assert_eq!(
        ctx.out.code[1..],
        [
            Insn::XorConst { prec: Precision::Single, dst: 1, label },
            Insn::XorConst { prec: Precision::Single, dst: 0, label },
            Insn::Ret,
            Insn::Align(16),
            Insn::DefineLabel(label),
            Insn::Dword(i32::MIN),
            Insn::Dword(0),
            Insn::Dword(0),
            Insn::Dword(0),
        ]
    );
}

#[test]
fn shared_labels_are_separate() {
    let mut session = CodeGenSession::new(1, &MODULE);
    let mut ctx = session.new_context(0);
    ctx.set_state(VirtualCallingConvention {
        stack: vec![reg(rq::RSI), reg(rq::RDX), xmm(0), xmm(1), xmm(2)],
        depth: StackDepth(1),
    });
    ctx.f64_abs();
    ctx.drop(0..=0);
    ctx.f32_abs();
    ctx.drop(0..=0);
    ctx.f64_neg();
    ctx.drop(0..=0);
    ctx.br_if_true(BrTarget::Return, |_c: &mut Context<'_, VmOffsets>| {});
    ctx.call_indirect(0, &[], &[]);
    ctx.epilogue();
    let labels = ctx.out.labels;
    let all = [
        labels.abs_const_f64,
        labels.abs_const_f32,
        labels.neg_const_f64,
        labels.ret,
        labels.trap,
    ];
    for (i, pending) in all.iter().enumerate() {
        let pending = pending.unwrap();
        assert_eq!(pending.label, Label { id: 1 + i });
        assert!(pending.is_defined);
        let defined = Insn::DefineLabel(pending.label);
        assert_eq!(ctx.out.code.iter().filter(|&&insn| insn == defined).count(), 1);
    }
    assert_eq!(labels.neg_const_f32, None);
}

#[test]
fn labels_are_fresh() {
    let mut session = CodeGenSession::new(2, &MODULE);
    let mut ctx = session.new_context(1);
    assert_eq!(ctx.out.code, vec![Insn::DefineLabel(Label { id: 1 })]);
    let first = ctx.create_label();
    let second = ctx.create_label();
    assert_eq!((first, second), (Label { id: 2 }, Label { id: 3 }));
    ctx.define_label(first);
    assert_eq!(ctx.out.code[1], Insn::DefineLabel(first));
}

#[test]
fn places_depend_on_kinds_and_order_only() {
    let types = [SignlessType::I32, SignlessType::F64, SignlessType::I64, SignlessType::F32];
    let all = arg_locs(&types);
    for n in 0..=types.len() {
        assert_eq!(arg_locs(&types[..n]), all[..n].to_vec());
    }
    let others = [SignlessType::I64, SignlessType::F32, SignlessType::I32, SignlessType::F64];
    assert_eq!(arg_locs(&others), all);
}

#[test]
fn state_is_taken_up_again() {
    let mut session = CodeGenSession::new(1, &MODULE);
    let mut ctx = session.new_context(0);
    ctx.start_function(&[SignlessType::I32, SignlessType::F32]);
    ctx.pick(1);
    let taken = ctx.virtual_calling_convention();
    ctx.drop(0..=2);
    assert_eq!(ctx.block_state.regs.num_usages(GPR::Rq(rq::RSI)), 0);
    let code = ctx.out.code.clone();
    ctx.set_state(taken);
    assert_eq!(ctx.block_state.stack, vec![reg(rq::RSI), xmm(0), reg(rq::RSI)]);
    assert_eq!(ctx.block_state.depth, StackDepth(1));
    assert_eq!(ctx.block_state.regs.num_usages(GPR::Rq(rq::RSI)), 2);
    assert_eq!(ctx.block_state.regs.num_usages(GPR::Rx(0)), 1);
    assert_eq!(ctx.block_state.regs.num_usages(GPR::Rq(rq::RSP)), 1);
    assert_eq!(ctx.block_state.regs.num_usages(GPR::Rq(rq::RDX)), 0);
    assert_eq!(ctx.out.code, code);
}

#[test]
fn function_starts_with_its_arguments() {
    let mut session = CodeGenSession::new(1, &MODULE);
    let mut ctx = session.new_context(0);
    ctx.start_function(&[SignlessType::I32, SignlessType::F32, SignlessType::I64]);
    assert_eq!(ctx.block_state.stack, vec![reg(rq::RSI), xmm(0), reg(rq::RDX)]);
    assert_eq!(ctx.block_state.depth, StackDepth(1));
    assert_eq!(ctx.block_state.regs.num_usages(GPR::Rq(rq::RSI)), 1);
    assert_eq!(ctx.block_state.regs.free_64(), 6);
    let cc = ctx.virtual_calling_convention();
    assert_eq!(cc.stack, ctx.block_state.stack);
    assert_eq!(cc.depth, StackDepth(1));
}

#[test]
fn block_starts_where_its_arguments_are_passed() {
    let mut session = CodeGenSession::new(1, &MODULE);
    let mut ctx = session.new_context(0);
    let cc = CallingConvention {
        stack_depth: StackDepth(4),
        arguments: vec![CCLoc::Stack(-2), CCLoc::Reg(GPR::Rx(7))],
    };
    ctx.apply_cc(&cc);
    assert_eq!(ctx.block_state.stack, vec![ValueLocation::Stack(-2), xmm(7)]);
    assert_eq!(ctx.block_state.depth, StackDepth(4));
    assert!(!ctx.block_state.regs.is_free(GPR::Rx(7)));
}

#[test]
fn dropped_registers_are_free() {
    let mut session = CodeGenSession::new(1, &MODULE);
    let mut ctx = session.new_context(0);
    ctx.start_function(&[SignlessType::I32, SignlessType::I32, SignlessType::I32]);
    ctx.pick(0);
    ctx.drop(1..=2);
    assert_eq!(ctx.block_state.stack, vec![reg(rq::RSI), reg(rq::RCX)]);
    assert_eq!(ctx.block_state.regs.num_usages(GPR::Rq(rq::RCX)), 1);
    assert!(ctx.block_state.regs.is_free(GPR::Rq(rq::RDX)));
}

#[test]
fn jump_table_has_a_jump_for_each_target() {
    let mut session = CodeGenSession::new(1, &MODULE);
    let mut ctx = session.new_context(0);
    let stack = vec![reg(rq::RSI)];
    ctx.set_state(VirtualCallingConvention { stack, depth: StackDepth(1) });
    let targets = [BrTarget::Label(Label { id: 7 }), BrTarget::Return];
    ctx.br_table(&targets, None, |_c: &mut Context<'_, VmOffsets>| {});
    let ret = ctx.out.labels.ret.unwrap().label;
    assert_eq!(
        ctx.out.code[1..],
        [
            Insn::Mov { w: Width::D, dst: rq_op(rq::RAX), src: Operand::Imm(2) },
            Insn::Cmp { w: Width::Q, left: rq_op(rq::RSI), right: rq_op(rq::RAX) },
            Insn::Cmov { cond: Cond::A, dst: rq::RSI, src: rq_op(rq::RAX) },
            Insn::LeaLocal { dst: rq::RAX, label: LocalLabel::Start },
            Insn::LeaTimes5 { dst: rq::RSI },
            Insn::Alu { op: AluOp::Add, w: Width::Q, dst: rq::RSI, src: rq_op(rq::RAX) },
            Insn::JmpReg(rq::RSI),
            Insn::DefineLocal(LocalLabel::Start),
            Insn::Jmp(Label { id: 7 }),
            Insn::Jmp(ret),
        ]
    );
    assert_eq!(ctx.block_state.regs.free_64(), 8);
}

#[test]
fn pass_args_runs_between_the_condition_and_the_jump() {
    let stack = vec![reg(rq::RDX), reg(rq::RSI)];
    let (code, stack) = generate(stack, 1, |c| {
        c.br_if_false(
            BrTarget::Label(Label { id: 9 }),
            |c: &mut Context<'_, VmOffsets>| {
                c.pass_block_args(&CallingConvention {
                    stack_depth: StackDepth(1),
                    arguments: vec![CCLoc::Reg(GPR::Rq(rq::RCX))],
                });
            },
        )
    });
    assert_eq!(
        code,
        vec![
            Insn::Mov { w: Width::Q, dst: rq_op(rq::RCX), src: rq_op(rq::RDX) },
            Insn::Test { w: Width::D, left: rq::RSI, right: rq_op(rq::RSI) },
            Insn::Jcc { cond: Cond::E, label: Label { id: 9 } },
        ]
    );
    assert!(stack.is_empty());
}

#[test]
fn direct_call_goes_to_the_label_of_the_function() {
    let (code, stack) = generate(vec![], 1, |c| {
        c.call_direct(2, &[], &[SignlessType::F64, SignlessType::I32])
    });
    assert_eq!(code[code.len() - 1], Insn::Call(Label { id: 2 }));
    assert_eq!(stack, vec![xmm(0), reg(rq::RAX)]);
}

#[test]
fn memory_functions_are_relocated() {
    let mut session = CodeGenSession::new(2, &MODULE);
    {
        let mut ctx = session.new_context(0);
        ctx.start_function(&[]);
        ctx.memory_size();
        ctx.ret();
    }
    {
        let mut ctx = session.new_context(1);
        ctx.start_function(&[SignlessType::I32]);
        ctx.memory_grow();
        ctx.ret();
    }
    assert_eq!(session.out.relocs.len(), 2);
    assert_eq!(session.out.relocs[0].name, ir::ExternalName::user(1, 2));
    assert_eq!(session.out.relocs[0].function, 0);
    assert_eq!(session.out.relocs[1].name, ir::ExternalName::user(1, 0));
    assert_eq!(session.out.relocs[1].function, 1);
    for reloc in &session.out.relocs {
        match session.out.code[reloc.at] {
            Insn::Mov { w: Width::Q, src: Operand::Imm(v), .. } => {
                assert_eq!(v as u64, 0xdead_beef_dead_beef)
            }
            other => panic!("{:?}", other),
        }
    }
    // Say that each instruction is ten bytes long.
    let offsets: Vec<usize> = (0..session.out.code.len()).map(|i| 10 * i).collect();
    let start = session.func_starts[1].0.unwrap();
    let first = 10 * session.out.relocs[0].at as u32 + 2;
    let second = 10 * (session.out.relocs[1].at - start) as u32 + 2;
    assert_eq!(session.reloc_offsets(&offsets), vec![first, second]);
}

#[test]
fn debug_keeps_the_registers() {
    let (code, _) = generate(vec![], 1, |c| c.debug(100, 200, 300));
    assert_eq!(code.len(), 28);
    assert_eq!(code[0], Insn::Push(rq_op(rq::RDI)));
    assert_eq!(code[27], Insn::Pop(rq::RDI));
    assert_eq!(
        code[8],
        Insn::Mov { w: Width::Q, dst: rq_op(rq::RAX), src: Operand::Imm(100) }
    );
    assert_eq!(
        code[9],
        Insn::Mov { w: Width::Q, dst: rq_op(rq::RDI), src: Operand::Imm(200) }
    );
    assert_eq!(
        code[10],
        Insn::Mov { w: Width::Q, dst: rq_op(rq::RSI), src: Operand::Imm(300) }
    );
}

#[test]
fn host_function_is_called() {
    let (code, _) = generate(vec![], 1, |c| c.define_host_fn(0x1234));
    assert_eq!(
        code,
        vec![
            Insn::Mov { w: Width::Q, dst: rq_op(rq::RAX), src: Operand::Imm(0x1234) },
            Insn::CallReg(rq::RAX),
            Insn::Ret,
        ]
    );
}

fn assembled(bytes: &[u8]) -> dynasmrt::ExecutableBuffer {
    let mut out = Assembler::new().unwrap();
    for &b in bytes {
        out.push(b);
    }
    out.finalize().unwrap()
}

/// Two functions, of two instructions and one, that take up three bytes and two.
fn section() -> TranslatedCodeSection {
    let mut session = CodeGenSession::new(2, &MODULE);
    {
        let mut ctx = session.new_context(0);
        ctx.trap();
        ctx.ret();
    }
    {
        let mut ctx = session.new_context(1);
        ctx.trap();
    }
    let offsets = vec![0, 0, 2, 3, 3];
    let buf = assembled(&[0x0f, 0x0b, 0xc3, 0x0f, 0x0b]);
    session.into_translated_code_section(Some(buf), &offsets).unwrap()
}

#[test]
fn functions_of_a_code_section() {
    let section = section();
    assert_eq!(section.func_start(0), 0);
    assert_eq!(section.func_start(1), 3);
    assert_eq!(section.func_range(0), 0..3);
    assert_eq!(section.func_range(1), 3..5);
    assert_eq!(section.funcs(), vec![0..3, 3..5]);
    assert_eq!(section.buffer(), &[0x0f, 0x0b, 0xc3, 0x0f, 0x0b]);
    assert!(section.relocatable_accesses.is_empty());
}

#[test]
fn code_section_without_functions() {
    let section = TranslatedCodeSection::default();
    assert!(section.buffer().is_empty());
    assert!(section.funcs().is_empty());
    assert!(section.func_starts.is_empty());
    assert!(section.relocatable_accesses.is_empty());
}

#[test]
fn failure_of_the_assembler() {
    let session = CodeGenSession::new(0, &MODULE);
    match session.into_translated_code_section(None, &vec![]) {
        Err(Error::Assembler(text)) => assert_eq!(text, "assembler error"),
        Ok(_) => panic!(),
    }
}

#[test]
fn functions_can_be_compiled_in_any_order() {
    let mut session = CodeGenSession::new(2, &MODULE);
    session.new_context(1).ret();
    session.new_context(0).trap();
    assert_eq!(session.func_starts[1], (Some(0), Label { id: 1 }));
    assert_eq!(session.func_starts[0], (Some(2), Label { id: 0 }));
    assert_eq!(
        session.out.code,
        vec![
            Insn::DefineLabel(Label { id: 1 }),
            Insn::Ret,
            Insn::DefineLabel(Label { id: 0 }),
            Insn::Ud2,
        ]
    );
}
