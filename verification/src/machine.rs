//! What the emitted instructions do: a model of the machine that runs them.
//!
//! The model covers the instructions on integers, on memory and on the stack up to the next call,
//! and the comparison of floating-point numbers. What floating-point arithmetic gives is left to
//! the machine, as functions of the operands of which nothing is said. Running what the model
//! leaves out ends in `Control::Unknown`. Addresses are mathematical integers; wrapping round the
//! end of the address space is not modelled.

use vstd::arithmetic::power2::pow2;
use vstd::prelude::*;

use crate::assembly::Label;
use crate::bits::ones;
use crate::insn::{
    AluOp, BitOp, Cond, Insn, LocalLabel, Mem, Operand, Precision, ShiftOp, SseOp, Width,
};
use crate::registers::{rq, RegId, GPR};

verus! {

/// What the last comparison left in the flags.
pub struct Flags {
    /// The operands were equal.
    pub zero: bool,
    /// The left operand was less without sign.
    pub below: bool,
    /// The left operand was less with sign.
    pub less: bool,
}

/// Where the machine goes next.
pub enum Control {
    /// To the next instruction.
    Next,
    Jump(Label),
    /// To a label within the code of the same operation.
    JumpLocal(LocalLabel),
    /// To this address.
    JumpTo(u64),
    /// To the function at this address.
    Call(u64),
    /// To the function at this label.
    CallLabel(Label),
    /// Back to the caller.
    Return,
    /// An exception was raised.
    Trap,
    /// The model does not say.
    Unknown,
}

/// The floating-point arithmetic of a machine. Numbers are bit patterns.
pub struct FloatUnit {
    /// What an operator gives for two numbers.
    pub combined: spec_fn(SseOp, Precision, u64, u64) -> u64,
    /// The `f32` that an integer is converted to.
    pub converted: spec_fn(int) -> u32,
    /// The integer that an `f32` is truncated to.
    pub truncated: spec_fn(u32) -> u32,
}

/// The state of the machine.
#[verifier::ext_equal]
pub struct Machine {
    pub rq: Seq<u64>,
    /// The lower halves of the vector registers.
    pub rx: Seq<u64>,
    pub rsp: int,
    pub mem: spec_fn(int) -> u8,
    /// Where the jump table starts that the code in question enters.
    pub table: u64,
    /// The lower halves of the constants that stand at labels.
    pub consts: spec_fn(Label) -> u64,
    pub floats: FloatUnit,
    /// `None` if the flags are not known.
    pub flags: Option<Flags>,
    pub next: Control,
}

/// The lowest bits of `val`, as many as `w` says.
pub open spec fn trunc(w: Width, val: u64) -> u64 {
    match w {
        Width::B => val as u8 as u64,
        Width::W => val as u16 as u64,
        Width::D => val as u32 as u64,
        Width::Q => val,
    }
}

/// The lowest bits of `val` as a signed number.
pub open spec fn signed(w: Width, val: u64) -> int {
    match w {
        Width::B => val as i8 as int,
        Width::W => val as i16 as int,
        Width::D => val as i32 as int,
        Width::Q => val as i64 as int,
    }
}

/// How many bytes an access of this width touches.
pub open spec fn size(w: Width) -> int {
    match w {
        Width::B => 1,
        Width::W => 2,
        Width::D => 4,
        Width::Q => 8,
    }
}

/// The byte of `val` at the given position, the lowest first.
pub open spec fn byte_of(val: u64, i: int) -> u8 {
    (val >> ((8 * i) as u64)) as u8
}

/// The eight bytes from `addr` on as a number, the lowest first.
pub open spec fn load(mem: spec_fn(int) -> u8, addr: int) -> u64 {
    (mem(addr) as u64) | (mem(addr + 1) as u64) << 8u64 | (mem(addr + 2) as u64) << 16u64 | (mem(
        addr + 3,
    ) as u64) << 24u64 | (mem(addr + 4) as u64) << 32u64 | (mem(addr + 5) as u64) << 40u64 | (mem(
        addr + 6,
    ) as u64) << 48u64 | (mem(addr + 7) as u64) << 56u64
}

/// The memory with the lowest bytes of `val` written from `addr` on.
pub open spec fn store(mem: spec_fn(int) -> u8, w: Width, addr: int, val: u64) -> spec_fn(
    int,
) -> u8 {
    |a: int|
        if addr <= a < addr + size(w) {
            byte_of(val, a - addr)
        } else {
            mem(a)
        }
}

pub open spec fn alu(op: AluOp, w: Width, a: u64, b: u64) -> u64 {
    match w {
        Width::Q => match op {
            AluOp::Add => a.wrapping_add(b),
            AluOp::Sub => a.wrapping_sub(b),
            AluOp::And => a & b,
            AluOp::Or => a | b,
            AluOp::Xor => a ^ b,
        },
        _ => alu_32(op, a as u32, b as u32) as u64,
    }
}

pub open spec fn alu_32(op: AluOp, a: u32, b: u32) -> u32 {
    match op {
        AluOp::Add => a.wrapping_add(b),
        AluOp::Sub => a.wrapping_sub(b),
        AluOp::And => a & b,
        AluOp::Or => a | b,
        AluOp::Xor => a ^ b,
    }
}

pub open spec fn product(w: Width, a: u64, b: u64) -> u64 {
    match w {
        Width::Q => a.wrapping_mul(b),
        _ => (a as u32).wrapping_mul(b as u32) as u64,
    }
}

/// Shifts and rotations use only as many bits of the count as the width has positions.
pub open spec fn shifted(op: ShiftOp, w: Width, val: u64, count: u64) -> u64 {
    match w {
        Width::Q => {
            let n = count % 64;
            match op {
                ShiftOp::Shl => val << n,
                ShiftOp::Shr => val >> n,
                ShiftOp::Sar => ((val as i64) >> n) as u64,
                ShiftOp::Rol => if n == 0 {
                    val
                } else {
                    (val << n) | (val >> ((64 - n) as u64))
                },
                ShiftOp::Ror => if n == 0 {
                    val
                } else {
                    (val >> n) | (val << ((64 - n) as u64))
                },
            }
        },
        _ => {
            let v = val as u32;
            let n = (count % 32) as u32;
            (match op {
                ShiftOp::Shl => v << n,
                ShiftOp::Shr => v >> n,
                ShiftOp::Sar => ((v as i32) >> n) as u32,
                ShiftOp::Rol => if n == 0 {
                    v
                } else {
                    (v << n) | (v >> ((32 - n) as u32))
                },
                ShiftOp::Ror => if n == 0 {
                    v
                } else {
                    (v >> n) | (v << ((32 - n) as u32))
                },
            }) as u64
        },
    }
}

pub open spec fn bit_count(op: BitOp, w: Width, val: u64) -> u64 {
    match w {
        Width::Q => (match op {
            BitOp::LeadingZeros => vstd::std_specs::bits::u64_leading_zeros(val) as u32,
            BitOp::TrailingZeros => vstd::std_specs::bits::u64_trailing_zeros(val),
            BitOp::Ones => ones(val as nat) as u32,
        }) as u64,
        _ => (match op {
            BitOp::LeadingZeros => vstd::std_specs::bits::u32_leading_zeros(val as u32),
            BitOp::TrailingZeros => vstd::std_specs::bits::u32_trailing_zeros(val as u32),
            BitOp::Ones => ones(val as u32 as nat) as u32,
        }) as u64,
    }
}

/// The quotient rounded towards zero.
pub open spec fn quotient(a: int, b: int) -> int {
    if (a >= 0) == (b >= 0) {
        abs(a) / abs(b)
    } else {
        -(abs(a) / abs(b))
    }
}

/// What is left over when the quotient is rounded towards zero.
pub open spec fn remainder(a: int, b: int) -> int {
    a - quotient(a, b) * b
}

pub open spec fn abs(a: int) -> int {
    if a >= 0 {
        a
    } else {
        -a
    }
}

/// The least signed number of this width.
pub open spec fn least_number(w: Width) -> int {
    match w {
        Width::Q => i64::MIN as int,
        _ => i32::MIN as int,
    }
}

impl Cond {
    pub open spec fn holds(self, f: Flags) -> bool {
        match self {
            Cond::E => f.zero,
            Cond::Ne => !f.zero,
            Cond::A => !f.below && !f.zero,
            Cond::Ae => !f.below,
            Cond::B => f.below,
            Cond::Be => f.below || f.zero,
            Cond::G => !f.less && !f.zero,
            Cond::Ge => !f.less,
            Cond::L => f.less,
            Cond::Le => f.less || f.zero,
        }
    }
}

/// The flags after `a` was compared with `b`.
pub open spec fn compared(w: Width, a: u64, b: u64) -> Flags {
    Flags {
        zero: trunc(w, a) == trunc(w, b),
        below: trunc(w, a) < trunc(w, b),
        less: signed(w, a) < signed(w, b),
    }
}

/// How many bits a floating-point number has.
pub open spec fn float_width(prec: Precision) -> Width {
    match prec {
        Precision::Single => Width::D,
        Precision::Double => Width::Q,
    }
}

/// The bits of a floating-point number without its sign, as a number.
pub open spec fn magnitude(prec: Precision, v: u64) -> int {
    match prec {
        Precision::Single => trunc(Width::D, v) as int % 0x8000_0000,
        Precision::Double => v as int % 0x8000_0000_0000_0000,
    }
}

pub open spec fn is_negative(prec: Precision, v: u64) -> bool {
    match prec {
        Precision::Single => trunc(Width::D, v) >= 0x8000_0000,
        Precision::Double => v >= 0x8000_0000_0000_0000,
    }
}

/// How many fractions there are for each exponent.
pub open spec fn fractions(prec: Precision) -> int {
    match prec {
        Precision::Single => 0x80_0000,
        Precision::Double => 0x10_0000_0000_0000,
    }
}

/// Whether a floating-point number is not a number: it has the greatest exponent and a fraction.
pub open spec fn is_nan(prec: Precision, v: u64) -> bool {
    &&& magnitude(prec, v) / fractions(prec) == (match prec {
        Precision::Single => 0xffint,
        Precision::Double => 0x7ffint,
    })
    &&& magnitude(prec, v) % fractions(prec) != 0
}

/// How many times the least positive number a number without sign is. The infinite one counts as
/// what follows the greatest finite one.
pub open spec fn scaled(prec: Precision, magnitude: int) -> int {
    let exponent = magnitude / fractions(prec);
    let fraction = magnitude % fractions(prec);
    if exponent == 0 {
        fraction
    } else {
        (fractions(prec) + fraction) * pow2((exponent - 1) as nat)
    }
}

/// How many times the least positive number a floating-point number is.
pub open spec fn float_value(prec: Precision, v: u64) -> int {
    if is_negative(prec, v) {
        -scaled(prec, magnitude(prec, v))
    } else {
        scaled(prec, magnitude(prec, v))
    }
}

/// The flags after the floating-point number `a` was compared with `b`. They are as for a number
/// that is both equal and less if one of them is no number.
pub open spec fn compared_floats(prec: Precision, a: u64, b: u64) -> Flags {
    let unordered = is_nan(prec, a) || is_nan(prec, b);
    Flags {
        zero: unordered || float_value(prec, a) == float_value(prec, b),
        below: unordered || float_value(prec, a) < float_value(prec, b),
        less: false,
    }
}

/// The flags after an operation on bits gave `v`.
pub open spec fn bit_flags(w: Width, v: u64) -> Flags {
    Flags { zero: trunc(w, v) == 0, below: false, less: signed(w, v) < 0 }
}

/// The flags after the bits that `a` and `b` share were tested.
pub open spec fn tested(w: Width, a: u64, b: u64) -> Flags {
    bit_flags(w, a & b)
}

/// The flags after an operator gave `v`. Of sums and differences the model does not say.
pub open spec fn alu_flags(op: AluOp, w: Width, v: u64) -> Option<Flags> {
    match op {
        AluOp::Add | AluOp::Sub => None,
        AluOp::And | AluOp::Or | AluOp::Xor => Some(bit_flags(w, v)),
    }
}

impl Machine {
    pub open spec fn wf(self) -> bool {
        self.rq.len() == 16 && self.rx.len() == 16
    }

    pub open spec fn gpr(self, gpr: GPR) -> u64 {
        match gpr {
            GPR::Rq(r) => self.rq[r as int],
            GPR::Rx(r) => self.rx[r as int],
        }
    }

    pub open spec fn with_gpr(self, gpr: GPR, val: u64) -> Machine {
        match gpr {
            GPR::Rq(r) => Machine { rq: self.rq.update(r as int, val), ..self },
            GPR::Rx(r) => Machine { rx: self.rx.update(r as int, val), ..self },
        }
    }

    /// What the register `r` adds to an address.
    pub open spec fn base(self, r: RegId) -> int {
        if r == rq::RSP {
            self.rsp
        } else {
            self.rq[r as int] as int
        }
    }

    pub open spec fn addr(self, mem: Mem) -> int {
        self.base(mem.base) + mem.disp + (match mem.index {
            Some(index) => self.base(index),
            None => 0,
        })
    }

    /// What an operand holds.
    pub open spec fn read(self, w: Width, op: Operand) -> u64 {
        match op {
            Operand::Gpr(gpr) => trunc(w, self.gpr(gpr)),
            Operand::Mem(mem) => trunc(w, load(self.mem, self.addr(mem))),
            Operand::Imm(imm) => trunc(w, imm as u64),
        }
    }

    /// Writes the lowest bits of `val`. Writing 32 bits of a register clears the upper half;
    /// writing fewer leaves the others as they are.
    pub open spec fn write(self, w: Width, op: Operand, val: u64) -> Machine {
        match op {
            Operand::Gpr(gpr) => self.with_gpr(
                gpr,
                match w {
                    Width::B => (self.gpr(gpr) & !0xffu64) | trunc(w, val),
                    Width::W => (self.gpr(gpr) & !0xffffu64) | trunc(w, val),
                    _ => trunc(w, val),
                },
            ),
            Operand::Mem(mem) => Machine {
                mem: store(self.mem, w, self.addr(mem), val),
                ..self
            },
            Operand::Imm(_) => self.unknown(),
        }
    }

    /// Writes a floating-point number to a vector register. One of 32 bits leaves the others as
    /// they are.
    pub open spec fn write_float(self, prec: Precision, r: RegId, val: u64) -> Machine {
        self.with_gpr(
            GPR::Rx(r),
            match prec {
                Precision::Single => (self.rx[r as int] & !0xffff_ffffu64) | trunc(Width::D, val),
                Precision::Double => val,
            },
        )
    }

    pub open spec fn unknown(self) -> Machine {
        Machine { next: Control::Unknown, ..self }
    }

    pub open spec fn with_flags(self, flags: Option<Flags>) -> Machine {
        Machine { flags, ..self }
    }

    /// Divides the number in `rdx` and `rax`. Of a number that does not fit in `rax`, extended
    /// by its sign or by zeros, the model says nothing.
    pub open spec fn divided(self, sign: bool, w: Width, by: u64) -> Machine {
        let a = self.rq[rq::RAX as int];
        let d = self.rq[rq::RDX as int];
        let m = self.with_flags(None);
        if trunc(w, by) == 0 {
            Machine { next: Control::Trap, ..self }
        } else if sign {
            let x = signed(w, a);
            let y = signed(w, by);
            if signed(w, d) != (if x < 0 { -1int } else { 0int }) {
                self.unknown()
            } else if x == least_number(w) && y == -1 {
                Machine { next: Control::Trap, ..self }
            } else {
                m.with_gpr(GPR::Rq(rq::RAX), trunc(w, quotient(x, y) as u64)).with_gpr(
                    GPR::Rq(rq::RDX),
                    trunc(w, remainder(x, y) as u64),
                )
            }
        } else {
            let x = trunc(w, a);
            let y = trunc(w, by);
            if trunc(w, d) != 0 {
                self.unknown()
            } else {
                m.with_gpr(GPR::Rq(rq::RAX), x / y).with_gpr(GPR::Rq(rq::RDX), x % y)
            }
        }
    }

    /// What one instruction does.
    pub open spec fn step(self, insn: Insn) -> Machine {
        match insn {
            Insn::Mov { w, dst, src } => self.write(w, dst, self.read(w, src)),
            Insn::Movq { dst, src } => self.write(Width::Q, dst, self.read(Width::Q, src)),
            Insn::Movd { dst, src } => self.write(Width::D, dst, self.read(Width::D, src)),
            Insn::Movzx { w, dst, src_w, src } => self.write(
                w,
                Operand::rq(dst),
                self.read(src_w, src),
            ),
            Insn::Movsx { w, dst, src_w, src } => self.write(
                w,
                Operand::rq(dst),
                signed(src_w, self.read(src_w, src)) as u64,
            ),
            Insn::Alu { op, w, dst, src } => if dst == rq::RSP {
                if op is Add && w is Q && src is Imm {
                    Machine { rsp: self.rsp + src->Imm_0, flags: None, ..self }
                } else {
                    self.unknown()
                }
            } else {
                let v = alu(op, w, self.rq[dst as int], self.read(w, src));
                self.write(w, Operand::rq(dst), v).with_flags(alu_flags(op, w, v))
            },
            Insn::Imul { w, dst, src } => self.write(
                w,
                Operand::rq(dst),
                product(w, self.rq[dst as int], self.read(w, src)),
            ).with_flags(None),
            Insn::ImulImm { w, dst, src, imm } => self.write(
                w,
                Operand::rq(dst),
                product(w, self.rq[src as int], imm as u64),
            ).with_flags(None),
            Insn::Cmp { w, left, right } => self.with_flags(
                Some(compared(w, self.read(w, left), self.read(w, right))),
            ),
            Insn::Test { w, left, right } => self.with_flags(
                Some(
                    tested(
                        w,
                        if left == rq::RSP {
                            self.rsp as u64
                        } else {
                            self.rq[left as int]
                        },
                        self.read(w, right),
                    ),
                ),
            ),
            Insn::Setcc { cond, dst } => match self.flags {
                Some(f) => self.write(
                    Width::B,
                    Operand::rq(dst),
                    if cond.holds(f) {
                        1
                    } else {
                        0
                    },
                ),
                None => self.unknown(),
            },
            Insn::Cmov { cond, dst, src } => match self.flags {
                Some(f) => if cond.holds(f) {
                    self.write(Width::Q, Operand::rq(dst), self.read(Width::Q, src))
                } else {
                    self
                },
                None => self.unknown(),
            },
            Insn::Shift { op, w, dst } => self.write(
                w,
                Operand::rq(dst),
                shifted(op, w, self.rq[dst as int], self.rq[rq::RCX as int]),
            ).with_flags(None),
            Insn::CountBits { op, w, dst, src } => self.write(
                w,
                Operand::rq(dst),
                bit_count(op, w, self.read(w, src)),
            ).with_flags(None),
            Insn::SignExtendAcc { w } => self.write(
                w,
                Operand::rq(rq::RDX),
                if signed(w, self.rq[rq::RAX as int]) < 0 {
                    u64::MAX
                } else {
                    0
                },
            ),
            Insn::Div { signed, w, src } => self.divided(signed, w, self.read(w, src)),
            Insn::Push(op) => Machine {
                rsp: self.rsp - 8,
                mem: store(self.mem, Width::Q, self.rsp - 8, self.read(Width::Q, op)),
                ..self
            },
            Insn::Pop(r) => Machine { rsp: self.rsp + 8, ..self }.with_gpr(
                GPR::Rq(r),
                load(self.mem, self.rsp),
            ),
            Insn::Pxor { dst, src } => self.with_gpr(
                GPR::Rx(dst),
                self.rx[dst as int] ^ self.rx[src as int],
            ),
            Insn::XorConst { prec, dst, label } => self.with_gpr(
                GPR::Rx(dst),
                self.rx[dst as int] ^ (self.consts)(label),
            ),
            Insn::AndConst { dst, label } => self.with_gpr(
                GPR::Rx(dst),
                self.rx[dst as int] & (self.consts)(label),
            ),
            Insn::Sse { op, prec, dst, src } => {
                let w = float_width(prec);
                let result = (self.floats.combined)(
                    op,
                    prec,
                    trunc(w, self.rx[dst as int]),
                    self.read(w, src),
                );
                self.write_float(prec, dst, result)
            },
            Insn::Comis { prec, left, right } => self.with_flags(
                Some(
                    compared_floats(
                        prec,
                        self.rx[left as int],
                        self.read(float_width(prec), right),
                    ),
                ),
            ),
            Insn::Cvttss2si { dst, src } => self.write(
                Width::D,
                Operand::rq(dst),
                (self.floats.truncated)(self.read(Width::D, src) as u32) as u64,
            ),
            Insn::Cvtsi2ss { w, dst, src } => self.write_float(
                Precision::Single,
                dst,
                (self.floats.converted)(signed(w, self.read(w, src))) as u64,
            ),
            Insn::LeaLocal { dst, label: LocalLabel::Start } => self.with_gpr(
                GPR::Rq(dst),
                self.table,
            ),
            Insn::LeaTimes5 { dst } => self.with_gpr(
                GPR::Rq(dst),
                product(Width::Q, self.rq[dst as int], 5),
            ),
            Insn::Call(label) => Machine { next: Control::CallLabel(label), ..self },
            Insn::CallReg(r) => Machine { next: Control::Call(self.rq[r as int]), ..self },
            Insn::CallMem(mem) => Machine {
                next: Control::Call(load(self.mem, self.addr(mem))),
                ..self
            },
            Insn::JmpReg(r) => Machine { next: Control::JumpTo(self.rq[r as int]), ..self },
            Insn::Jmp(label) => Machine { next: Control::Jump(label), ..self },
            Insn::Jcc { cond, label } => match self.flags {
                Some(f) => if cond.holds(f) {
                    Machine { next: Control::Jump(label), ..self }
                } else {
                    self
                },
                None => self.unknown(),
            },
            Insn::JmpLocal(label) => Machine { next: Control::JumpLocal(label), ..self },
            Insn::JccLocal { cond, label } => match self.flags {
                Some(f) => if cond.holds(f) {
                    Machine { next: Control::JumpLocal(label), ..self }
                } else {
                    self
                },
                None => self.unknown(),
            },
            Insn::Ret => Machine { next: Control::Return, ..self },
            Insn::Ud2 => Machine { next: Control::Trap, ..self },
            Insn::DefineLabel(_) | Insn::DefineLocal(_) | Insn::Align(_) => self,
            _ => self.unknown(),
        }
    }
}

impl Machine {
    /// Some machine that is about to run code.
    pub open spec fn some() -> Machine {
        Machine {
            rq: Seq::new(16, |i: int| 0u64),
            rx: Seq::new(16, |i: int| 0u64),
            rsp: 0,
            mem: |a: int| 0u8,
            table: 0,
            consts: |label: Label| 0u64,
            floats: FloatUnit {
                combined: |op: SseOp, prec: Precision, a: u64, b: u64| 0u64,
                converted: |number: int| 0u32,
                truncated: |bits: u32| 0u32,
            },
            flags: None,
            next: Control::Next,
        }
    }
}

/// Runs `code` from its start until it leaves by a jump, a trap or a return, or ends.
pub open spec fn run(m: Machine, code: Seq<Insn>) -> Machine
    decreases code.len(),
{
    if code.len() == 0 {
        m
    } else {
        let before = run(m, code.drop_last());
        if before.next is Next {
            before.step(code.last())
        } else {
            before
        }
    }
}

} // verus!
