//! Runs the generated instructions on an interpreter and looks at the values that come out.

use std::collections::HashMap;

use lightbeam_backend::assembly::Label;
use lightbeam_backend::context::Context;
use lightbeam_backend::insn::{
    AluOp, BitOp, Cond, Insn, LocalLabel, Mem, Operand, ShiftOp, Width,
};
use lightbeam_backend::location::{
    CCLoc, CallingConvention, StackDepth, ValueLocation, VirtualCallingConvention,
};
use lightbeam_backend::microwasm::{BrTarget, Ieee32, Ieee64, SignlessType, Value};
use lightbeam_backend::module_context::VmOffsets;
use lightbeam_backend::registers::{rq, GPR};
use lightbeam_backend::session::CodeGenSession;

const MODULE: VmOffsets = VmOffsets {
    memories: 0x20,
    tables: 0x40,
    table_length: 8,
    definition_size: 16,
    globals: 0x80,
    global_size: 16,
    imported_globals: 1,
    signatures: 0x100,
    signature_size: 4,
    element_size: 24,
    element_type_index: 8,
    element_func_ptr: 0,
};

const VMCTX_AT: u64 = 0x9000;
const MEMORY_AT: u64 = 0x20000;
const TABLE_AT: u64 = 0x30000;
const RSP_AT: u64 = 0x8000;
const JUMPS_AT: u64 = 0x50000;

#[derive(Debug, Clone, Copy, PartialEq)]
enum Exit {
    End,
    Jump(Label),
    JumpTo(u64),
    Call(u64),
    Ret,
    Trap,
}

struct Machine {
    rq: [u64; 16],
    rx: [u64; 16],
    rsp: u64,
    mem: HashMap<u64, u8>,
    zero: bool,
    below: bool,
    less: bool,
    flags_known: bool,
}

fn bits(w: Width) -> u32 {
    match w {
        Width::B => 8,
        Width::W => 16,
        Width::D => 32,
        Width::Q => 64,
    }
}

fn trunc(w: Width, v: u64) -> u64 {
    match w {
        Width::B => v as u8 as u64,
        Width::W => v as u16 as u64,
        Width::D => v as u32 as u64,
        Width::Q => v,
    }
}

fn signed(w: Width, v: u64) -> i64 {
    match w {
        Width::B => v as i8 as i64,
        Width::W => v as i16 as i64,
        Width::D => v as i32 as i64,
        Width::Q => v as i64,
    }
}

impl Machine {
    fn new() -> Machine {
        let mut m = Machine {
            rq: [0; 16],
            rx: [0; 16],
            rsp: RSP_AT,
            mem: HashMap::new(),
            zero: false,
            below: false,
            less: false,
            flags_known: false,
        };
        for i in 0..16 {
            m.rq[i] = 0x1111_1111_1111_0000 + i as u64;
            m.rx[i] = 0x2222_2222_2222_0000 + i as u64;
        }
        m.rq[rq::RDI as usize] = VMCTX_AT;
        m.store(Width::Q, VMCTX_AT + 0x20, MEMORY_AT);
        m.store(Width::Q, VMCTX_AT + 0x40, TABLE_AT);
        m
    }

    fn load(&self, addr: u64) -> u64 {
        let mut v: u64 = 0;
        for i in 0..8 {
            v |= (*self.mem.get(&(addr + i)).unwrap_or(&0) as u64) << (8 * i);
        }
        v
    }

    fn store(&mut self, w: Width, addr: u64, v: u64) {
        for i in 0..(bits(w) / 8) as u64 {
            self.mem.insert(addr + i, (v >> (8 * i)) as u8);
        }
    }

    fn base(&self, r: u8) -> u64 {
        if r == rq::RSP {
            self.rsp
        } else {
            self.rq[r as usize]
        }
    }

    fn addr(&self, mem: Mem) -> u64 {
        let index = match mem.index {
            Some(r) => self.base(r),
            None => 0,
        };
        self.base(mem.base).wrapping_add(index).wrapping_add(mem.disp as i64 as u64)
    }

    fn read(&self, w: Width, op: Operand) -> u64 {
        let v = match op {
            Operand::Gpr(GPR::Rq(r)) => self.rq[r as usize],
            Operand::Gpr(GPR::Rx(r)) => self.rx[r as usize],
            Operand::Mem(mem) => self.load(self.addr(mem)),
            Operand::Imm(imm) => imm as u64,
        };
        trunc(w, v)
    }

    fn write(&mut self, w: Width, op: Operand, v: u64) {
        match op {
            Operand::Gpr(GPR::Rq(r)) => {
                let old = self.rq[r as usize];
                self.rq[r as usize] = match w {
                    Width::B => (old & !0xff) | trunc(w, v),
                    Width::W => (old & !0xffff) | trunc(w, v),
                    _ => trunc(w, v),
                };
            }
            Operand::Gpr(GPR::Rx(r)) => self.rx[r as usize] = trunc(w, v),
            Operand::Mem(mem) => self.store(w, self.addr(mem), v),
            Operand::Imm(_) => panic!("a constant cannot be written"),
        }
    }

    fn holds(&self, cond: Cond) -> bool {
        assert!(self.flags_known);
        match cond {
            Cond::E => self.zero,
            Cond::Ne => !self.zero,
            Cond::A => !self.below && !self.zero,
            Cond::Ae => !self.below,
            Cond::B => self.below,
            Cond::Be => self.below || self.zero,
            Cond::G => !self.less && !self.zero,
            Cond::Ge => !self.less,
            Cond::L => self.less,
            Cond::Le => self.less || self.zero,
        }
    }

    fn run(&mut self, code: &[Insn]) -> Exit {
        for &insn in code {
            match self.step(insn) {
                Exit::End => {}
                exit => return exit,
            }
        }
        Exit::End
    }

    fn step(&mut self, insn: Insn) -> Exit {
        let reg = |r: u8| Operand::Gpr(GPR::Rq(r));
        match insn {
            Insn::Mov { w, dst, src } => self.write(w, dst, self.read(w, src)),
            Insn::Movq { dst, src } => self.write(Width::Q, dst, self.read(Width::Q, src)),
            Insn::Movd { dst, src } => self.write(Width::D, dst, self.read(Width::D, src)),
            Insn::Movzx { w, dst, src_w, src } => {
                self.write(w, reg(dst), self.read(src_w, src))
            }
            Insn::Movsx { w, dst, src_w, src } => {
                self.write(w, reg(dst), signed(src_w, self.read(src_w, src)) as u64)
            }
            Insn::Alu { op: AluOp::Add, w: Width::Q, dst: rq::RSP, src: Operand::Imm(i) } => {
                self.rsp = self.rsp.wrapping_add(i as u64);
                self.flags_known = false;
            }
            Insn::Alu { op, w, dst, src } => {
                let (a, b) = (self.rq[dst as usize], self.read(w, src));
                let v = match op {
                    AluOp::Add => a.wrapping_add(b),
                    AluOp::Sub => a.wrapping_sub(b),
                    AluOp::And => a & b,
                    AluOp::Or => a | b,
                    AluOp::Xor => a ^ b,
                };
                self.write(w, reg(dst), v);
                self.flags_known = false;
            }
            Insn::Imul { w, dst, src } => {
                let v = self.rq[dst as usize].wrapping_mul(self.read(w, src));
                self.write(w, reg(dst), v);
                self.flags_known = false;
            }
            Insn::ImulImm { w, dst, src, imm } => {
                let v = self.rq[src as usize].wrapping_mul(imm as i64 as u64);
                self.write(w, reg(dst), v);
                self.flags_known = false;
            }
            Insn::Cmp { w, left, right } => {
                let (a, b) = (self.read(w, left), self.read(w, right));
                self.zero = a == b;
                self.below = a < b;
                self.less = signed(w, a) < signed(w, b);
                self.flags_known = true;
            }
            Insn::Test { w, left, right } => {
                let v = trunc(w, self.rq[left as usize]) & self.read(w, right);
                self.zero = v == 0;
                self.below = false;
                self.less = signed(w, v) < 0;
                self.flags_known = true;
            }
            Insn::Setcc { cond, dst } => {
                let v = self.holds(cond) as u64;
                self.write(Width::B, reg(dst), v);
            }
            Insn::Cmov { cond, dst, src } => {
                if self.holds(cond) {
                    self.write(Width::Q, reg(dst), self.read(Width::Q, src));
                }
            }
            Insn::Shift { op, w, dst } => {
                let n = (self.rq[rq::RCX as usize] as u32) % bits(w);
                let v = self.rq[dst as usize];
                let v = match (op, w) {
                    (ShiftOp::Shl, Width::Q) => v << n,
                    (ShiftOp::Shr, Width::Q) => v >> n,
                    (ShiftOp::Sar, Width::Q) => ((v as i64) >> n) as u64,
                    (ShiftOp::Rol, Width::Q) => v.rotate_left(n),
                    (ShiftOp::Ror, Width::Q) => v.rotate_right(n),
                    (ShiftOp::Shl, _) => ((v as u32) << n) as u64,
                    (ShiftOp::Shr, _) => ((v as u32) >> n) as u64,
                    (ShiftOp::Sar, _) => ((v as i32) >> n) as u32 as u64,
                    (ShiftOp::Rol, _) => (v as u32).rotate_left(n) as u64,
                    (ShiftOp::Ror, _) => (v as u32).rotate_right(n) as u64,
                };
                self.write(w, reg(dst), v);
                self.flags_known = false;
            }
            Insn::CountBits { op, w, dst, src } => {
                let v = self.read(w, src);
                let n = match (op, w) {
                    (BitOp::LeadingZeros, Width::Q) => v.leading_zeros(),
                    (BitOp::TrailingZeros, Width::Q) => v.trailing_zeros(),
                    (BitOp::LeadingZeros, _) => (v as u32).leading_zeros(),
                    (BitOp::TrailingZeros, _) => (v as u32).trailing_zeros(),
                    (BitOp::Ones, _) => v.count_ones(),
                };
                self.write(w, reg(dst), n as u64);
                self.flags_known = false;
            }
            Insn::SignExtendAcc { w } => {
                let v = if signed(w, self.rq[0]) < 0 { u64::MAX } else { 0 };
                self.write(w, reg(rq::RDX), v);
            }
            Insn::Div { signed: sign, w, src } => {
                let by = self.read(w, src);
                if by == 0 {
                    return Exit::Trap;
                }
                if sign {
                    let (a, b) = (signed(w, self.rq[0]), signed(w, by));
                    let high = signed(w, self.rq[2]);
                    assert_eq!(high, if a < 0 { -1 } else { 0 });
                    let least = if w == Width::Q { i64::MIN } else { i32::MIN as i64 };
                    if a == least && b == -1 {
                        return Exit::Trap;
                    }
                    self.write(w, reg(rq::RAX), (a / b) as u64);
                    self.write(w, reg(rq::RDX), (a % b) as u64);
                } else {
                    assert_eq!(trunc(w, self.rq[2]), 0);
                    let a = trunc(w, self.rq[0]);
                    self.write(w, reg(rq::RAX), a / by);
                    self.write(w, reg(rq::RDX), a % by);
                }
                self.flags_known = false;
            }
            Insn::Push(op) => {
                let v = self.read(Width::Q, op);
                self.rsp -= 8;
                self.store(Width::Q, self.rsp, v);
            }
            Insn::Pop(r) => {
                self.rq[r as usize] = self.load(self.rsp);
                self.rsp += 8;
            }
            Insn::Pxor { dst, src } => self.rx[dst as usize] ^= self.rx[src as usize],
            Insn::LeaLocal { dst, label: LocalLabel::Start } => {
                self.rq[dst as usize] = JUMPS_AT
            }
            Insn::LeaTimes5 { dst } => {
                self.rq[dst as usize] = self.rq[dst as usize].wrapping_mul(5)
            }
            Insn::Jmp(label) => return Exit::Jump(label),
            Insn::Jcc { cond, label } => {
                if self.holds(cond) {
                    return Exit::Jump(label);
                }
            }
            Insn::JmpReg(r) => return Exit::JumpTo(self.rq[r as usize]),
            Insn::CallMem(mem) => return Exit::Call(self.load(self.addr(mem))),
            Insn::CallReg(r) => return Exit::Call(self.rq[r as usize]),
            Insn::Ret => return Exit::Ret,
            Insn::Ud2 => return Exit::Trap,
            Insn::DefineLabel(_) | Insn::DefineLocal(_) | Insn::Align(_) => {}
            other => panic!("not modelled: {:?}", other),
        }
        Exit::End
    }

    fn value(&self, loc: ValueLocation, depth: u32) -> u64 {
        match loc {
            ValueLocation::Reg(GPR::Rq(r)) => self.rq[r as usize],
            ValueLocation::Reg(GPR::Rx(r)) => self.rx[r as usize],
            ValueLocation::Stack(o) => {
                self.load(self.rsp.wrapping_add((8 * (depth as i64 + o as i64)) as u64))
            }
            ValueLocation::Immediate(v) => v.as_bytes() as u64,
        }
    }
}

type Op = fn(&mut Context<'_, VmOffsets>);

struct Outcome {
    exit: Exit,
    machine: Machine,
    stack: Vec<ValueLocation>,
    values: Vec<u64>,
    depth: u32,
}

impl Outcome {
    fn top(&self) -> u64 {
        self.values[self.values.len() - 1]
    }
}

/// Generates code for `op` with the given values on the stack, and runs it.
fn perform(depth: u32, start: &[(ValueLocation, u64)], op: Op) -> Outcome {
    let mut session = CodeGenSession::new(1, &MODULE);
    let mut ctx = session.new_context(0);
    ctx.set_state(VirtualCallingConvention {
        stack: start.iter().map(|v| v.0).collect(),
        depth: StackDepth(depth),
    });
    let mut machine = Machine::new();
    for &(loc, val) in start {
        match loc {
            ValueLocation::Reg(gpr) => machine.write(Width::Q, Operand::Gpr(gpr), val),
            ValueLocation::Stack(o) => {
                let addr = RSP_AT.wrapping_add((8 * (depth as i64 + o as i64)) as u64);
                machine.store(Width::Q, addr, val);
            }
            ValueLocation::Immediate(_) => {}
        }
    }
    let before = ctx.out.code.len();
    op(&mut ctx);
    let code: Vec<Insn> = ctx.out.code[before..].to_vec();
    let stack = ctx.block_state.stack.clone();
    let depth = ctx.block_state.depth.0;
    let exit = machine.run(&code);
    let values = stack.iter().map(|&loc| machine.value(loc, depth)).collect();
    Outcome { exit, machine, stack, values, depth }
}

fn reg(r: u8) -> ValueLocation {
    ValueLocation::Reg(GPR::Rq(r))
}

const OTHER: u64 = 0x0123_4567_89ab_cdef;
const GARBAGE: u64 = 0xfeed_0000_0000_0000;

/// The places that the two operands of an operator can be in.
fn places(a: Value, b: Value) -> Vec<[(ValueLocation, u64); 2]> {
    let (x, y) = (a.as_bytes() as u64, b.as_bytes() as u64);
    let (x, y) = match a {
        // The upper halves do not matter.
        Value::I32(_) => (x | GARBAGE, y | GARBAGE),
        _ => (x, y),
    };
    let left = [
        (ValueLocation::Immediate(a), x),
        (reg(rq::RSI), x),
        (reg(rq::RAX), x),
        (ValueLocation::Stack(-1), x),
    ];
    let right = [
        (ValueLocation::Immediate(b), y),
        (reg(rq::RDX), y),
        (reg(rq::RCX), y),
        (ValueLocation::Stack(-2), y),
    ];
    let mut all = Vec::new();
    for l in left {
        for r in right {
            all.push([l, r]);
        }
    }
    all
}

/// Performs `op` on the two values in all places, and compares the lowest bits of the result.
fn check_binary(op: Op, w: Width, a: Value, b: Value, expected: u64) {
    for [l, r] in places(a, b) {
        let start = [(reg(rq::R9), OTHER), (ValueLocation::Stack(-3), !OTHER), l, r];
        let out = perform(4, &start, op);
        assert_eq!(out.exit, Exit::End);
        assert_eq!(out.stack.len(), 3);
        assert_eq!(trunc(w, out.top()), trunc(w, expected), "{:?} {:?}", l, r);
        assert_eq!(out.values[0], OTHER);
        assert_eq!(out.values[1], !OTHER);
        assert_eq!(out.machine.rq[rq::RDI as usize], VMCTX_AT);
        assert_eq!((out.depth, out.machine.rsp), (4, RSP_AT));
    }
}

fn check_i32(op: Op, a: i32, b: i32, expected: u32) {
    check_binary(op, Width::D, Value::I32(a), Value::I32(b), expected as u64);
}

fn check_i64(op: Op, a: i64, b: i64, expected: u64) {
    check_binary(op, Width::Q, Value::I64(a), Value::I64(b), expected);
}

#[test]
fn operators_on_i32() {
    for (a, b) in [(7, 3), (-5, 2), (i32::MAX, 1), (i32::MIN, -1), (0, -9)] {
        check_i32(|c| c.i32_add(), a, b, a.wrapping_add(b) as u32);
        check_i32(|c| c.i32_sub(), a, b, a.wrapping_sub(b) as u32);
        check_i32(|c| c.i32_and(), a, b, (a & b) as u32);
        check_i32(|c| c.i32_or(), a, b, (a | b) as u32);
        check_i32(|c| c.i32_xor(), a, b, (a ^ b) as u32);
        check_i32(|c| c.i32_mul(), a, b, a.wrapping_mul(b) as u32);
    }
}

#[test]
fn operators_on_i64() {
    for (a, b) in [(7, 3), (-5, 2), (1 << 40, 1 << 35), (i64::MIN, -1), (0, i64::MAX)] {
        check_i64(|c| c.i64_add(), a, b, a.wrapping_add(b) as u64);
        check_i64(|c| c.i64_sub(), a, b, a.wrapping_sub(b) as u64);
        check_i64(|c| c.i64_and(), a, b, (a & b) as u64);
        check_i64(|c| c.i64_or(), a, b, (a | b) as u64);
        check_i64(|c| c.i64_xor(), a, b, (a ^ b) as u64);
    }
    for (a, b) in [(7, 3), (-5, 2), (123_456_789, -987_654)] {
        check_i64(|c| c.i64_mul(), a, b, a.wrapping_mul(b) as u64);
    }
}

#[test]
fn comparisons_of_i32() {
    for (a, b) in [(7, 3), (3, 7), (-5, 2), (2, -5), (9, 9), (i32::MIN, i32::MAX), (-1, 0)] {
        let (u, v) = (a as u32, b as u32);
        check_i32(|c| c.i32_eq(), a, b, (a == b) as u32);
        check_i32(|c| c.i32_neq(), a, b, (a != b) as u32);
        check_i32(|c| c.i32_lt_u(), a, b, (u < v) as u32);
        check_i32(|c| c.i32_le_u(), a, b, (u <= v) as u32);
        check_i32(|c| c.i32_gt_u(), a, b, (u > v) as u32);
        check_i32(|c| c.i32_ge_u(), a, b, (u >= v) as u32);
        check_i32(|c| c.i32_lt_s(), a, b, (a < b) as u32);
        check_i32(|c| c.i32_le_s(), a, b, (a <= b) as u32);
        check_i32(|c| c.i32_gt_s(), a, b, (a > b) as u32);
        check_i32(|c| c.i32_ge_s(), a, b, (a >= b) as u32);
    }
}

#[test]
fn comparisons_of_i64() {
    for (a, b) in [(7, 3), (3, 7), (-5, 2), (2, -5), (9, 9), (-0x7fff_ffff, 0x7fff_ffff)] {
        let (u, v) = (a as u64, b as u64);
        check_i64(|c| c.i64_eq(), a, b, (a == b) as u64);
        check_i64(|c| c.i64_neq(), a, b, (a != b) as u64);
        check_i64(|c| c.i64_lt_u(), a, b, (u < v) as u64);
        check_i64(|c| c.i64_le_u(), a, b, (u <= v) as u64);
        check_i64(|c| c.i64_gt_u(), a, b, (u > v) as u64);
        check_i64(|c| c.i64_ge_u(), a, b, (u >= v) as u64);
        check_i64(|c| c.i64_lt_s(), a, b, (a < b) as u64);
        check_i64(|c| c.i64_le_s(), a, b, (a <= b) as u64);
        check_i64(|c| c.i64_gt_s(), a, b, (a > b) as u64);
        check_i64(|c| c.i64_ge_s(), a, b, (a >= b) as u64);
    }
}

#[test]
fn shifts_and_rotations() {
    for (a, b) in [(0x1234_5678, 4), (-77, 31), (5, 33), (i32::MIN, 1)] {
        let n = (b as u32) % 32;
        check_i32(|c| c.i32_shl(), a, b, (a as u32) << n);
        check_i32(|c| c.i32_shr_s(), a, b, (a >> n) as u32);
        check_i32(|c| c.i32_shr_u(), a, b, (a as u32) >> n);
        check_i32(|c| c.i32_rotl(), a, b, (a as u32).rotate_left(n));
        check_i32(|c| c.i32_rotr(), a, b, (a as u32).rotate_right(n));
    }
    for (a, b) in [(0x1234_5678_9abc_def0, 4), (-77, 63), (5, 65), (i64::MIN, 1)] {
        let n = (b as u32) % 64;
        check_i64(|c| c.i64_shl(), a, b, (a as u64) << n);
        check_i64(|c| c.i64_shr_s(), a, b, (a >> n) as u64);
        check_i64(|c| c.i64_shr_u(), a, b, (a as u64) >> n);
        check_i64(|c| c.i64_rotl(), a, b, (a as u64).rotate_left(n));
        check_i64(|c| c.i64_rotr(), a, b, (a as u64).rotate_right(n));
    }
}

#[test]
fn shift_keeps_what_else_is_in_rcx() {
    let start = [
        (reg(rq::RCX), OTHER),
        (reg(rq::RSI), 6),
        (ValueLocation::Immediate(Value::I32(3)), 3),
    ];
    let out = perform(1, &start, |c| c.i32_shl());
    assert_eq!(out.values, vec![OTHER, 48]);
}

#[test]
fn shift_of_a_shared_value_in_rcx() {
    let start = [(reg(rq::RCX), 5), (reg(rq::RCX), 5), (reg(rq::RSI), 2)];
    let out = perform(1, &start, |c| c.i64_shl());
    assert_eq!(out.values, vec![5, 20]);
}

#[test]
fn shift_does_not_write_to_a_shared_register() {
    let by = ValueLocation::Immediate(Value::I32(2));
    let start = [(reg(rq::RSI), 5), (reg(rq::RSI), 5), (by, 2)];
    let out = perform(1, &start, |c| c.i32_shl());
    assert_eq!(out.values, vec![5, 20]);
    // The count is in the register of the value.
    let start = [(reg(rq::R8), 3), (reg(rq::R8), 3), (reg(rq::R8), 3)];
    let out = perform(1, &start, |c| c.i64_rotl());
    assert_eq!(out.values, vec![3, 24]);
    // The count shares `rcx`.
    let start = [(reg(rq::RCX), 4), (reg(rq::RSI), 1), (reg(rq::RCX), 4)];
    let out = perform(1, &start, |c| c.i64_shl());
    assert_eq!(out.values, vec![4, 16]);
}

#[test]
fn shift_of_a_value_that_is_alone_in_rcx() {
    for by in [(reg(rq::RSI), 3), (ValueLocation::Immediate(Value::I32(3)), 3)] {
        let out = perform(1, &[(reg(rq::RCX), 40), by], |c| c.i32_shr_u());
        assert_eq!(out.values, vec![5]);
        let out = perform(1, &[(reg(rq::RDX), OTHER), (reg(rq::RCX), 40), by], |c| c.i64_shr_s());
        assert_eq!(out.values, vec![OTHER, 5]);
    }
    let start = [(reg(rq::RCX), 2), (reg(rq::RCX), 2)];
    let out = perform(1, &start, |c| c.i32_shl());
    assert_eq!(out.values, vec![8]);
}

#[test]
fn divisions() {
    for (a, b) in [(7, 3), (-7, 3), (7, -3), (-7, -3), (i32::MIN, 2), (-1, 1)] {
        let (u, v) = (a as u32, b as u32);
        check_i32(|c| c.i32_div_s(), a, b, (a / b) as u32);
        check_i32(|c| c.i32_rem_s(), a, b, (a % b) as u32);
        check_i32(|c| c.i32_div_u(), a, b, u / v);
        check_i32(|c| c.i32_rem_u(), a, b, u % v);
    }
    for (a, b) in [(7, 3), (-7, 3), (7, -3), (-7, -3), (i64::MIN, 2), (1 << 50, 1 << 20)] {
        let (u, v) = (a as u64, b as u64);
        check_i64(|c| c.i64_div_s(), a, b, (a / b) as u64);
        check_i64(|c| c.i64_rem_s(), a, b, (a % b) as u64);
        check_i64(|c| c.i64_div_u(), a, b, u / v);
        check_i64(|c| c.i64_rem_u(), a, b, u % v);
    }
}

#[test]
fn division_keeps_what_else_is_in_rax_and_rdx() {
    let ops: [(Op, u64); 4] = [
        (|c| c.i32_div_u(), 14),
        (|c| c.i32_rem_u(), 2),
        (|c| c.i32_div_s(), 14),
        (|c| c.i32_rem_s(), 2),
    ];
    for (op, expected) in ops {
        let start = [
            (reg(rq::RAX), OTHER),
            (reg(rq::RDX), !OTHER),
            (reg(rq::RSI), 100),
            (reg(rq::R8), 7),
        ];
        let out = perform(1, &start, op);
        assert_eq!(out.exit, Exit::End);
        assert_eq!(out.values, vec![OTHER, !OTHER, expected]);
    }
}

#[test]
fn division_by_zero_traps() {
    let ops: [Op; 4] = [
        |c| c.i32_div_u(),
        |c| c.i32_div_s(),
        |c| c.i64_rem_u(),
        |c| c.i64_rem_s(),
    ];
    for op in ops {
        let out = perform(1, &[(reg(rq::RSI), 9), (reg(rq::RDX), 0)], op);
        assert_eq!(out.exit, Exit::Trap);
    }
    let nine = ValueLocation::Immediate(Value::I32(9));
    let zero = ValueLocation::Immediate(Value::I32(0));
    let out = perform(1, &[(nine, 9), (zero, 0)], |c| c.i32_div_s());
    assert_eq!(out.exit, Exit::Trap);
}

#[test]
fn quotient_that_is_too_large_traps() {
    let least = i32::MIN as u32 as u64;
    let out = perform(
        1,
        &[(reg(rq::RSI), least), (reg(rq::RDX), u32::MAX as u64)],
        |c| c.i32_div_s(),
    );
    assert_eq!(out.exit, Exit::Trap);
}

#[test]
fn constant_quotient_that_is_too_large_wraps() {
    let a = ValueLocation::Immediate(Value::I32(i32::MIN));
    let b = ValueLocation::Immediate(Value::I32(-1));
    let out = perform(1, &[(a, 0), (b, 0)], |c| c.i32_div_s());
    assert_eq!(out.stack, vec![ValueLocation::Immediate(Value::I32(i32::MIN))]);
}

#[test]
fn counting_bits() {
    for v in [0u64, 1, 0x00f0_0000, 0x8000_0000, 0x0000_0f00_0000_0000] {
        let locs32 = [
            (reg(rq::RSI), v as u32 as u64),
            (ValueLocation::Stack(-1), v as u32 as u64),
            (ValueLocation::Immediate(Value::I32(v as i32)), 0),
        ];
        for start in locs32 {
            let n = v as u32;
            assert_eq!(perform(2, &[start], |c| c.i32_clz()).top(), n.leading_zeros() as u64);
            assert_eq!(perform(2, &[start], |c| c.i32_ctz()).top(), n.trailing_zeros() as u64);
            assert_eq!(perform(2, &[start], |c| c.i32_popcnt()).top(), n.count_ones() as u64);
        }
        let locs64 = [
            (reg(rq::RSI), v),
            (ValueLocation::Stack(-1), v),
            (ValueLocation::Immediate(Value::I64(v as i64)), 0),
        ];
        for start in locs64 {
            assert_eq!(perform(2, &[start], |c| c.i64_clz()).top(), v.leading_zeros() as u64);
            assert_eq!(perform(2, &[start], |c| c.i64_ctz()).top(), v.trailing_zeros() as u64);
            assert_eq!(perform(2, &[start], |c| c.i64_popcnt()).top(), v.count_ones() as u64);
        }
    }
}

#[test]
fn extensions() {
    for v in [5i32, -5, i32::MIN] {
        let raw = v as u32 as u64 | GARBAGE;
        let places = [
            (reg(rq::RSI), raw),
            (ValueLocation::Reg(GPR::Rx(3)), raw),
            (ValueLocation::Stack(-1), raw),
            (ValueLocation::Immediate(Value::I32(v)), 0),
        ];
        for start in places {
            assert_eq!(perform(2, &[start], |c| c.i32_extend_u()).top(), v as u32 as u64);
            assert_eq!(perform(2, &[start], |c| c.i32_extend_s()).top(), v as i64 as u64);
        }
    }
}

#[test]
fn comparison_with_zero() {
    for v in [0u64, 1, 1 << 32] {
        for place in [reg(rq::RSI), ValueLocation::Stack(-1)] {
            let zero32 = (v as u32 == 0) as u64;
            assert_eq!(perform(2, &[(place, v)], |c| c.i32_eqz()).top(), zero32);
            assert_eq!(perform(2, &[(place, v)], |c| c.i64_eqz()).top(), (v == 0) as u64);
        }
        let imm = ValueLocation::Immediate(Value::I64(v as i64));
        assert_eq!(perform(2, &[(imm, v)], |c| c.i64_eqz()).top(), (v == 0) as u64);
    }
}

#[test]
fn selections() {
    let conds = [
        (reg(rq::RDX), 1u64),
        (reg(rq::RDX), 0),
        (ValueLocation::Stack(-3), GARBAGE),
        (ValueLocation::Stack(-3), GARBAGE | 8),
        (ValueLocation::Immediate(Value::I32(0)), 0),
        (ValueLocation::Immediate(Value::I32(3)), 3),
    ];
    for cond in conds {
        let start = [(reg(rq::RSI), 111), (ValueLocation::Stack(-2), 222), cond];
        let out = perform(4, &start, |c| c.select());
        let expected = if cond.1 as u32 == 0 { 222 } else { 111 };
        assert_eq!(out.values, vec![expected]);
    }
}

#[test]
fn loads_from_memory() {
    let places = [
        (reg(rq::RSI), 0x10u64),
        (ValueLocation::Stack(-1), 0x10),
        (ValueLocation::Immediate(Value::I32(0x10)), 0),
    ];
    let ops: [(Op, u64); 12] = [
        (|c| c.i32_load(0), 0x8c9d_aebf),
        (|c| c.i64_load(0), 0xf0e1_d2c3_8c9d_aebf),
        (|c| c.i32_load8_u(0), 0xbf),
        (|c| c.i32_load8_s(0), 0xffff_ffbf),
        (|c| c.i32_load16_u(0), 0xaebf),
        (|c| c.i32_load16_s(0), 0xffff_aebf),
        (|c| c.i64_load8_u(0), 0xbf),
        (|c| c.i64_load8_s(0), 0xffff_ffff_ffff_ffbf),
        (|c| c.i64_load16_u(0), 0xaebf),
        (|c| c.i64_load16_s(0), 0xffff_ffff_ffff_aebf),
        (|c| c.i64_load32_u(0), 0x8c9d_aebf),
        (|c| c.i64_load32_s(0), 0xffff_ffff_8c9d_aebf),
    ];
    for place in places {
        for (op, expected) in ops {
            let mut session = CodeGenSession::new(1, &MODULE);
            let mut ctx = session.new_context(0);
            ctx.set_state(VirtualCallingConvention {
                stack: vec![place.0],
                depth: StackDepth(2),
            });
            let mut machine = Machine::new();
            machine.rq[rq::RSI as usize] = place.1;
            machine.store(Width::Q, RSP_AT + 8, place.1);
            machine.store(Width::Q, MEMORY_AT + 0x10, 0xf0e1_d2c3_8c9d_aebf);
            let before = ctx.out.code.len();
            op(&mut ctx);
            let code = ctx.out.code[before..].to_vec();
            assert_eq!(machine.run(&code), Exit::End);
            assert_eq!(machine.value(ctx.block_state.stack[0], 2), expected);
        }
    }
}

#[test]
fn stores_are_read_back() {
    let ops: [(Op, Op, u64); 4] = [
        (|c| c.store8(4), |c| c.i32_load8_u(4), 0xf0),
        (|c| c.store16(4), |c| c.i32_load16_u(4), 0xdef0),
        (|c| c.store32(4), |c| c.i32_load(4), 0x9abc_def0),
        (|c| c.store64(4), |c| c.i64_load(4), 0x1234_5678_9abc_def0),
    ];
    for (store, load, expected) in ops {
        for place in [reg(rq::RDX), ValueLocation::Reg(GPR::Rx(2)), ValueLocation::Stack(-1)] {
            let mut session = CodeGenSession::new(1, &MODULE);
            let mut ctx = session.new_context(0);
            let address = ValueLocation::Immediate(Value::I32(0x100));
            ctx.set_state(VirtualCallingConvention {
                stack: vec![address, place],
                depth: StackDepth(2),
            });
            let mut machine = Machine::new();
            match place {
                ValueLocation::Reg(gpr) => {
                    machine.write(Width::Q, Operand::Gpr(gpr), 0x1234_5678_9abc_def0)
                }
                _ => machine.store(Width::Q, RSP_AT + 8, 0x1234_5678_9abc_def0),
            }
            let before = ctx.out.code.len();
            store(&mut ctx);
            ctx.const_(Value::I32(0x100));
            load(&mut ctx);
            let code = ctx.out.code[before..].to_vec();
            assert_eq!(machine.run(&code), Exit::End);
            assert_eq!(machine.value(ctx.block_state.stack[0], 2), expected);
            assert_eq!(machine.load(MEMORY_AT + 0x104) & 0xff, 0xf0);
        }
    }
}

#[test]
fn globals_are_read_back() {
    let out = perform(1, &[(reg(rq::RSI), OTHER)], |c| {
        c.set_global(3);
        c.get_global(3);
    });
    assert_eq!(out.values, vec![OTHER]);
    // Number 3 is the third global that the module defines.
    assert_eq!(out.machine.load(VMCTX_AT + 0x80 + 2 * 16), OTHER);
}

#[test]
fn picking_swapping_and_dropping() {
    let start = [(reg(rq::RSI), 10), (reg(rq::RDX), 20), (ValueLocation::Stack(-1), 30)];
    assert_eq!(perform(2, &start, |c| c.pick(2)).values, vec![10, 20, 30, 10]);
    assert_eq!(perform(2, &start, |c| c.swap(2)).values, vec![30, 20, 10]);
    assert_eq!(perform(2, &start, |c| c.swap(0)).values, vec![10, 20, 30]);
    assert_eq!(perform(2, &start, |c| c.drop(0..=0)).values, vec![10, 20]);
    assert_eq!(perform(2, &start, |c| c.drop(1..=2)).values, vec![30]);
    let twice = perform(2, &start, |c| {
        c.swap(1);
        c.swap(1);
    });
    assert_eq!(twice.values, vec![10, 20, 30]);
}

#[test]
fn picked_value_is_not_overwritten() {
    let start = [(reg(rq::RSI), 10), (reg(rq::RDX), 20)];
    let out = perform(1, &start, |c| {
        c.pick(1);
        c.pick(1);
        c.i32_add();
    });
    assert_eq!(out.values, vec![10, 20, 30]);
}

#[test]
fn serialized_values_are_in_registers() {
    let mut session = CodeGenSession::new(1, &MODULE);
    let mut ctx = session.new_context(0);
    let stack = vec![
        reg(rq::RSI),
        ValueLocation::Immediate(Value::I32(7)),
        reg(rq::RSI),
        ValueLocation::Stack(-1),
    ];
    ctx.set_state(VirtualCallingConvention { stack, depth: StackDepth(2) });
    let before = ctx.out.code.len();
    let cc = ctx.serialize_args(3);
    let code = ctx.out.code[before..].to_vec();
    let mut machine = Machine::new();
    machine.rq[rq::RSI as usize] = 5;
    machine.store(Width::Q, RSP_AT + 8, 9);
    assert_eq!(machine.run(&code), Exit::End);
    assert_eq!(cc.stack_depth, StackDepth(2));
    let values: Vec<u64> =
        cc.arguments.iter().map(|&loc| machine.value(ValueLocation::from(loc), 2)).collect();
    assert_eq!(values, vec![7, 5, 9]);
    assert!(cc.arguments.iter().all(|loc| matches!(loc, CCLoc::Reg(_))));
    assert_ne!(cc.arguments[1], CCLoc::Reg(GPR::Rq(rq::RSI)));
    assert_eq!(ctx.block_state.stack, vec![reg(rq::RSI)]);
    assert_eq!(machine.rq[rq::RSI as usize], 5);
}

#[test]
fn block_arguments_get_to_their_places() {
    let mut session = CodeGenSession::new(1, &MODULE);
    let mut ctx = session.new_context(0);
    // Two registers change places, and one value goes to a slot.
    let stack = vec![reg(rq::RSI), reg(rq::RDX), reg(rq::RCX)];
    ctx.set_state(VirtualCallingConvention { stack, depth: StackDepth(3) });
    let before = ctx.out.code.len();
    let cc = CallingConvention {
        stack_depth: StackDepth(3),
        arguments: vec![
            CCLoc::Reg(GPR::Rq(rq::RDX)),
            CCLoc::Reg(GPR::Rq(rq::RSI)),
            CCLoc::Stack(-1),
        ],
    };
    ctx.pass_block_args(&cc);
    let code = ctx.out.code[before..].to_vec();
    let mut machine = Machine::new();
    machine.rq[rq::RSI as usize] = 1;
    machine.rq[rq::RDX as usize] = 2;
    machine.rq[rq::RCX as usize] = 3;
    assert_eq!(machine.run(&code), Exit::End);
    let depth = ctx.block_state.depth.0;
    let values: Vec<u64> =
        cc.arguments.iter().map(|&loc| machine.value(ValueLocation::from(loc), depth)).collect();
    assert_eq!(values, vec![1, 2, 3]);
    // The frame stays where it is.
    assert_eq!(machine.rsp + 8 * depth as u64, RSP_AT + 24);
}

#[test]
fn arguments_of_a_call_get_to_their_registers() {
    let mut session = CodeGenSession::new(2, &MODULE);
    let mut ctx = session.new_context(0);
    // The value below the arguments is in a register that the callee may change.
    let stack = vec![reg(rq::R8), reg(rq::RDX), ValueLocation::Immediate(Value::I32(44))];
    ctx.set_state(VirtualCallingConvention { stack, depth: StackDepth(1) });
    let before = ctx.out.code.len();
    ctx.call_direct(1, &[SignlessType::I32, SignlessType::I32], &[SignlessType::I32]);
    let code = ctx.out.code[before..].to_vec();
    let callee = Label { id: 1 };
    assert_eq!(code[code.len() - 1], Insn::Call(callee));
    let mut machine = Machine::new();
    machine.rq[rq::R8 as usize] = OTHER;
    machine.rq[rq::RDX as usize] = 33;
    assert_eq!(machine.run(&code[..code.len() - 1]), Exit::End);
    assert_eq!(machine.rq[rq::RSI as usize], 33);
    assert_eq!(machine.rq[rq::RDX as usize], 44);
    assert_eq!(ctx.block_state.stack, vec![ValueLocation::Stack(-2), reg(rq::RAX)]);
    assert_eq!(machine.value(ValueLocation::Stack(-2), ctx.block_state.depth.0), OTHER);
}

#[test]
fn arguments_beyond_the_fifth_are_on_the_stack() {
    let mut session = CodeGenSession::new(2, &MODULE);
    let mut ctx = session.new_context(0);
    let stack: Vec<ValueLocation> =
        (1..=7).map(|v| ValueLocation::Immediate(Value::I32(v))).collect();
    ctx.set_state(VirtualCallingConvention { stack, depth: StackDepth(3) });
    let before = ctx.out.code.len();
    ctx.call_direct(1, &[SignlessType::I32; 7], &[]);
    let code = ctx.out.code[before..].to_vec();
    let mut machine = Machine::new();
    assert_eq!(machine.run(&code[..code.len() - 1]), Exit::End);
    let registers = [rq::RSI, rq::RDX, rq::RCX, rq::R8, rq::R9];
    for (i, &r) in registers.iter().enumerate() {
        assert_eq!(machine.rq[r as usize], i as u64 + 1);
    }
    assert_eq!(machine.rsp, RSP_AT - 16);
    assert_eq!(machine.load(machine.rsp), 6);
    assert_eq!(machine.load(machine.rsp + 8), 7);
    assert_eq!(ctx.block_state.depth, StackDepth(5));
    assert!(ctx.block_state.stack.is_empty());
}

#[test]
fn arguments_on_the_stack_come_from_slots() {
    let mut session = CodeGenSession::new(2, &MODULE);
    let mut ctx = session.new_context(0);
    // The return address is in the slot above the two values.
    let mut stack: Vec<ValueLocation> =
        (1..=5).map(|v| ValueLocation::Immediate(Value::I32(v))).collect();
    stack.push(ValueLocation::Stack(-3));
    stack.push(ValueLocation::Stack(-2));
    ctx.set_state(VirtualCallingConvention { stack, depth: StackDepth(3) });
    let before = ctx.out.code.len();
    ctx.call_direct(1, &[SignlessType::I64; 7], &[]);
    let code = ctx.out.code[before..].to_vec();
    let mut machine = Machine::new();
    machine.store(Width::Q, RSP_AT, OTHER);
    machine.store(Width::Q, RSP_AT + 8, GARBAGE);
    machine.store(Width::Q, RSP_AT + 16, 0x4711);
    assert_eq!(machine.run(&code[..code.len() - 1]), Exit::End);
    assert_eq!(machine.rsp, RSP_AT - 16);
    assert_eq!(machine.load(machine.rsp), OTHER);
    assert_eq!(machine.load(machine.rsp + 8), GARBAGE);
    // What was on the machine's stack is still there.
    assert_eq!(machine.load(RSP_AT), OTHER);
    assert_eq!(machine.load(RSP_AT + 8), GARBAGE);
    assert_eq!(machine.load(RSP_AT + 16), 0x4711);
}

#[test]
fn vector_registers_are_saved_before_a_call() {
    let mut session = CodeGenSession::new(2, &MODULE);
    let mut ctx = session.new_context(0);
    let stack = vec![ValueLocation::Reg(GPR::Rx(0))];
    ctx.set_state(VirtualCallingConvention { stack, depth: StackDepth(1) });
    let before = ctx.out.code.len();
    ctx.call_direct(1, &[], &[]);
    let code = ctx.out.code[before..].to_vec();
    let mut machine = Machine::new();
    machine.rx[0] = OTHER;
    machine.store(Width::Q, RSP_AT, 0x4711);
    assert_eq!(machine.run(&code[..code.len() - 1]), Exit::End);
    assert_eq!(ctx.block_state.stack, vec![ValueLocation::Stack(-2)]);
    assert_eq!(ctx.block_state.depth, StackDepth(2));
    assert_eq!(ctx.block_state.regs.num_usages(GPR::Rx(0)), 0);
    assert_eq!(machine.rsp, RSP_AT - 8);
    assert_eq!(machine.value(ValueLocation::Stack(-2), 2), OTHER);
    assert_eq!(machine.load(RSP_AT), 0x4711);
}

#[test]
fn float_constants_do_not_disturb_other_arguments() {
    let mut session = CodeGenSession::new(2, &MODULE);
    let mut ctx = session.new_context(0);
    let half = Value::F32(Ieee32(0.5f32.to_bits()));
    let stack = vec![
        reg(rq::RAX),
        ValueLocation::Immediate(half),
        ValueLocation::Immediate(Value::I32(5)),
        ValueLocation::Immediate(Value::I32(7)),
    ];
    ctx.set_state(VirtualCallingConvention { stack, depth: StackDepth(1) });
    let before = ctx.out.code.len();
    let types = [SignlessType::I32, SignlessType::F32, SignlessType::I32, SignlessType::I32];
    ctx.call_direct(1, &types, &[]);
    let code = ctx.out.code[before..].to_vec();
    let mut machine = Machine::new();
    machine.rq[rq::RAX as usize] = 12;
    assert_eq!(machine.run(&code[..code.len() - 1]), Exit::End);
    assert_eq!(machine.rq[rq::RSI as usize], 12);
    assert_eq!(machine.rx[0], 0.5f32.to_bits() as u64);
    assert_eq!(machine.rq[rq::RDX as usize], 5);
    assert_eq!(machine.rq[rq::RCX as usize], 7);
    // All registers are given back.
    assert_eq!(ctx.block_state.regs.free_64(), 8);
    assert_eq!(ctx.block_state.regs.free_128(), 16);
}

#[test]
fn float_constants_are_passed_in_vector_registers() {
    let mut session = CodeGenSession::new(2, &MODULE);
    let mut ctx = session.new_context(0);
    let half = Value::F32(Ieee32(0.5f32.to_bits()));
    let stack = vec![ValueLocation::Immediate(half), reg(rq::RDX)];
    ctx.set_state(VirtualCallingConvention { stack, depth: StackDepth(1) });
    let before = ctx.out.code.len();
    ctx.call_direct(1, &[SignlessType::F32, SignlessType::I32], &[]);
    let code = ctx.out.code[before..].to_vec();
    let mut machine = Machine::new();
    machine.rq[rq::RDX as usize] = 12;
    assert_eq!(machine.run(&code[..code.len() - 1]), Exit::End);
    assert_eq!(machine.rx[0], 0.5f32.to_bits() as u64);
    assert_eq!(machine.rq[rq::RSI as usize], 12);
}

#[test]
fn branches_on_a_condition() {
    let label = Label { id: 99 };
    for (v, zero) in [(0u64, true), (GARBAGE, true), (5, false)] {
        let start = [(reg(rq::RSI), OTHER), (reg(rq::RDX), v)];
        let out = perform(1, &start, |c| {
            c.br_if_true(BrTarget::Label(Label { id: 99 }), |_c: &mut Context<'_, VmOffsets>| {})
        });
        assert_eq!(out.exit, if zero { Exit::End } else { Exit::Jump(label) });
        assert_eq!(out.values, vec![OTHER]);
        let out = perform(1, &start, |c| {
            c.br_if_false(BrTarget::Label(Label { id: 99 }), |_c: &mut Context<'_, VmOffsets>| {})
        });
        assert_eq!(out.exit, if zero { Exit::Jump(label) } else { Exit::End });
    }
}

#[test]
fn unconditional_branches() {
    let out = perform(1, &[], |c| c.br(BrTarget::Label(Label { id: 5 })));
    assert_eq!(out.exit, Exit::Jump(Label { id: 5 }));
    let out = perform(1, &[], |c| c.br(BrTarget::Return));
    assert_eq!(out.exit, Exit::Ret);
    assert_eq!(perform(1, &[], |c| c.ret()).exit, Exit::Ret);
    assert_eq!(perform(1, &[], |c| c.trap()).exit, Exit::Trap);
}

#[test]
fn branches_through_a_table() {
    for (selector, entry) in [(0u64, 0u64), (1, 1), (2, 2), (3, 2), (1 << 40, 2)] {
        let out = perform(1, &[(reg(rq::RSI), selector)], |c| {
            let targets = [BrTarget::Label(Label { id: 7 }), BrTarget::Label(Label { id: 8 })];
            c.br_table(
                &targets,
                Some(BrTarget::Label(Label { id: 9 })),
                |_c: &mut Context<'_, VmOffsets>| {},
            )
        });
        assert_eq!(out.exit, Exit::JumpTo(JUMPS_AT + 5 * entry));
    }
    for (selector, id) in [(0, 7), (1, 8), (2, 9), (-1, 9)] {
        let imm = ValueLocation::Immediate(Value::I32(selector));
        let out = perform(1, &[(imm, 0)], |c| {
            let targets = [BrTarget::Label(Label { id: 7 }), BrTarget::Label(Label { id: 8 })];
            c.br_table(
                &targets,
                Some(BrTarget::Label(Label { id: 9 })),
                |_c: &mut Context<'_, VmOffsets>| {},
            )
        });
        assert_eq!(out.exit, Exit::Jump(Label { id }));
    }
}

#[test]
fn branch_through_a_table_keeps_other_values() {
    let start = [(reg(rq::RSI), 1), (reg(rq::RSI), 1)];
    let out = perform(1, &start, |c| {
        let targets = [BrTarget::Label(Label { id: 7 }), BrTarget::Label(Label { id: 8 })];
        c.br_table(&targets, None, |_c: &mut Context<'_, VmOffsets>| {})
    });
    assert_eq!(out.exit, Exit::JumpTo(JUMPS_AT + 5));
    assert_eq!(out.stack, vec![reg(rq::RSI)]);
    assert_eq!(out.values, vec![1]);
}

#[test]
fn indirect_calls_are_checked() {
    for (index, signature, expected) in
        [(1u64, 77u64, Some(0x7777u64)), (2, 77, None), (1, 78, None)]
    {
        let mut session = CodeGenSession::new(1, &MODULE);
        let mut ctx = session.new_context(0);
        ctx.set_state(VirtualCallingConvention {
            stack: vec![reg(rq::R9)],
            depth: StackDepth(1),
        });
        let before = ctx.out.code.len();
        ctx.call_indirect(5, &[], &[]);
        let code = ctx.out.code[before..].to_vec();
        let mut machine = Machine::new();
        machine.rq[rq::R9 as usize] = index;
        // The table has two elements; the second has the signature 77.
        machine.store(Width::D, VMCTX_AT + 0x48, 2);
        machine.store(Width::D, VMCTX_AT + 0x100 + 4 * 5, signature);
        machine.store(Width::Q, TABLE_AT + 24, 0x7777);
        machine.store(Width::D, TABLE_AT + 24 + 8, 77);
        let exit = machine.run(&code);
        match expected {
            Some(target) => assert_eq!(exit, Exit::Call(target)),
            None => {
                let trap = ctx.out.labels.trap.unwrap().label;
                assert_eq!(exit, Exit::Jump(trap));
            }
        }
    }
}

#[test]
fn indirect_call_keeps_the_number_of_the_callee() {
    let mut session = CodeGenSession::new(1, &MODULE);
    let mut ctx = session.new_context(0);
    // The number is in the register of the first argument.
    ctx.set_state(VirtualCallingConvention {
        stack: vec![reg(rq::RDX), reg(rq::RSI)],
        depth: StackDepth(1),
    });
    let before = ctx.out.code.len();
    ctx.call_indirect(5, &[SignlessType::I64], &[]);
    let code = ctx.out.code[before..].to_vec();
    let mut machine = Machine::new();
    machine.rq[rq::RDX as usize] = OTHER;
    machine.rq[rq::RSI as usize] = 1;
    machine.store(Width::D, VMCTX_AT + 0x48, 2);
    machine.store(Width::D, VMCTX_AT + 0x100 + 4 * 5, 77);
    machine.store(Width::Q, TABLE_AT + 24, 0x7777);
    machine.store(Width::D, TABLE_AT + 24 + 8, 77);
    assert_eq!(machine.run(&code), Exit::Call(0x7777));
    assert_eq!(machine.rq[rq::RSI as usize], OTHER);
}

#[test]
fn memory_functions_are_called_at_an_unknown_address() {
    let out = perform(1, &[], |c| c.memory_size());
    assert_eq!(out.exit, Exit::Call(0xdead_beef_dead_beef));
    assert_eq!(out.stack, vec![reg(rq::RAX)]);
    assert_eq!(out.machine.rq[rq::RSI as usize], 0);
    let out = perform(1, &[(reg(rq::RDX), 3)], |c| c.memory_grow());
    assert_eq!(out.exit, Exit::Call(0xdead_beef_dead_beef));
    assert_eq!(out.machine.rq[rq::RSI as usize], 3);
    assert_eq!(out.machine.rq[rq::RDX as usize], 0);
}

#[test]
fn float_constants_are_folded() {
    let f32s = |x: f32| ValueLocation::Immediate(Value::F32(Ieee32(x.to_bits())));
    let f64s = |x: f64| ValueLocation::Immediate(Value::F64(Ieee64(x.to_bits())));
    let gt: Op = |c| c.f32_gt();
    let ge: Op = |c| c.f32_ge();
    let lt: Op = |c| c.f32_lt();
    let le: Op = |c| c.f32_le();
    let values = [0.0f32, -0.0, 1.5, -1.5, f32::INFINITY, f32::NEG_INFINITY, f32::NAN, 1e-40];
    for a in values {
        for b in values {
            let start = [(f32s(a), 0), (f32s(b), 0)];
            assert_eq!(perform(1, &start, gt).top(), (a > b) as u64);
            assert_eq!(perform(1, &start, ge).top(), (a >= b) as u64);
            assert_eq!(perform(1, &start, lt).top(), (a < b) as u64);
            assert_eq!(perform(1, &start, le).top(), (a <= b) as u64);
        }
        let neg = perform(1, &[(f32s(a), 0)], |c| c.f32_neg());
        assert_eq!(neg.top() as u32, (-a).to_bits());
        let abs = perform(1, &[(f32s(a), 0)], |c| c.f32_abs());
        assert_eq!(abs.top() as u32, a.abs().to_bits());
    }
    let values = [0.0f64, -0.0, 2.5, -2.5, f64::INFINITY, f64::NAN, -1e-310];
    for a in values {
        for b in values {
            let start = [(f64s(a), 0), (f64s(b), 0)];
            assert_eq!(perform(1, &start, |c| c.f64_gt()).top(), (a > b) as u64);
            assert_eq!(perform(1, &start, |c| c.f64_ge()).top(), (a >= b) as u64);
            assert_eq!(perform(1, &start, |c| c.f64_lt()).top(), (a < b) as u64);
            assert_eq!(perform(1, &start, |c| c.f64_le()).top(), (a <= b) as u64);
        }
        let neg = perform(1, &[(f64s(a), 0)], |c| c.f64_neg());
        assert_eq!(neg.top(), (-a).to_bits());
        let abs = perform(1, &[(f64s(a), 0)], |c| c.f64_abs());
        assert_eq!(abs.top(), a.abs().to_bits());
    }
}
