//! The instructions that the backend emits.

use vstd::prelude::*;

use crate::assembly::Label;
use crate::registers::{RegId, GPR};

verus! {

/// How many bits of its operands an instruction works on.
#[derive(Copy, Clone, Debug, PartialEq, Eq, Structural)]
pub enum Width {
    /// 8 bits.
    B,
    /// 16 bits.
    W,
    /// 32 bits.
    D,
    /// 64 bits.
    Q,
}

/// An address in memory: the sum of the base register, the index register and the displacement.
#[derive(Copy, Clone, Debug, PartialEq, Eq, Structural)]
pub struct Mem {
    pub base: RegId,
    pub index: Option<RegId>,
    pub disp: i32,
}

/// What an instruction reads or writes.
#[derive(Copy, Clone, Debug, PartialEq, Eq, Structural)]
pub enum Operand {
    Gpr(GPR),
    Mem(Mem),
    Imm(i64),
}

/// The precision of a floating-point instruction.
#[derive(Copy, Clone, Debug, PartialEq, Eq, Structural)]
pub enum Precision {
    Single,
    Double,
}

#[derive(Copy, Clone, Debug, PartialEq, Eq, Structural)]
pub enum AluOp {
    Add,
    Sub,
    And,
    Or,
    Xor,
}

#[derive(Copy, Clone, Debug, PartialEq, Eq, Structural)]
pub enum ShiftOp {
    Shl,
    Sar,
    Shr,
    Rol,
    Ror,
}

/// Instructions that count bits.
#[derive(Copy, Clone, Debug, PartialEq, Eq, Structural)]
pub enum BitOp {
    /// `lzcnt`: the zeros above the highest one.
    LeadingZeros,
    /// `tzcnt`: the zeros below the lowest one.
    TrailingZeros,
    /// `popcnt`: the ones.
    Ones,
}

#[derive(Copy, Clone, Debug, PartialEq, Eq, Structural)]
pub enum SseOp {
    Add,
    Sub,
    Mul,
    Div,
}

/// A condition on the flags. `A` and `B` (above, below) compare without sign, `G` and `L`
/// (greater, less) with sign.
#[derive(Copy, Clone, Debug, PartialEq, Eq, Structural)]
pub enum Cond {
    E,
    Ne,
    A,
    Ae,
    B,
    Be,
    G,
    Ge,
    L,
    Le,
}

/// A label that stands within the code that one operation emits.
#[derive(Copy, Clone, Debug, PartialEq, Eq, Structural)]
pub enum LocalLabel {
    /// The first jump of a jump table.
    Start,
    /// The call with the stack pointer moved by one word.
    WithAdjustedStackPtr,
    /// The restoring of the saved registers.
    PopRest,
}

/// An instruction, or a directive to the assembler.
#[derive(Copy, Clone, Debug, PartialEq, Eq, Structural)]
pub enum Insn {
    /// `mov`.
    Mov { w: Width, dst: Operand, src: Operand },
    /// `movq`: moves 64 bits from or to a vector register.
    Movq { dst: Operand, src: Operand },
    /// `movd`: moves 32 bits from or to a vector register.
    Movd { dst: Operand, src: Operand },
    /// `movzx`: loads a narrower value and fills up with zeros.
    Movzx { w: Width, dst: RegId, src_w: Width, src: Operand },
    /// `movsx` and `movsxd`: loads a narrower value and fills up with its sign.
    Movsx { w: Width, dst: RegId, src_w: Width, src: Operand },
    Alu { op: AluOp, w: Width, dst: RegId, src: Operand },
    /// `imul dst, src`.
    Imul { w: Width, dst: RegId, src: Operand },
    /// `imul dst, src, imm`.
    ImulImm { w: Width, dst: RegId, src: RegId, imm: i32 },
    Cmp { w: Width, left: Operand, right: Operand },
    Test { w: Width, left: RegId, right: Operand },
    /// `setcc`: sets the lowest byte to whether the condition holds.
    Setcc { cond: Cond, dst: RegId },
    /// `cmovcc` on 64 bits.
    Cmov { cond: Cond, dst: RegId, src: Operand },
    /// A shift or rotation by `cl`.
    Shift { op: ShiftOp, w: Width, dst: RegId },
    CountBits { op: BitOp, w: Width, dst: RegId, src: Operand },
    /// `cdq` or `cqo`: fills `rdx` with the sign of `rax`.
    SignExtendAcc { w: Width },
    /// `div` or `idiv`: divides `rdx:rax`, with the quotient in `rax` and the remainder in `rdx`.
    Div { signed: bool, w: Width, src: Operand },
    Push(Operand),
    Pop(RegId),
    /// `addss`, `addsd` and their like.
    Sse { op: SseOp, prec: Precision, dst: RegId, src: Operand },
    /// `comiss` or `comisd`.
    Comis { prec: Precision, left: RegId, right: Operand },
    Pxor { dst: RegId, src: RegId },
    /// `xorps` or `xorpd` with the constant at the label.
    XorConst { prec: Precision, dst: RegId, label: Label },
    /// `andps` with the constant at the label.
    AndConst { dst: RegId, label: Label },
    /// `cvttss2si` to 32 bits.
    Cvttss2si { dst: RegId, src: Operand },
    /// `cvtsi2ss` from an integer of the given width.
    Cvtsi2ss { w: Width, dst: RegId, src: Operand },
    /// `lea dst, [label]`.
    LeaLocal { dst: RegId, label: LocalLabel },
    /// `lea dst, [dst * 5]`.
    LeaTimes5 { dst: RegId },
    Jmp(Label),
    Jcc { cond: Cond, label: Label },
    JmpReg(RegId),
    JmpLocal(LocalLabel),
    JccLocal { cond: Cond, label: LocalLabel },
    Call(Label),
    CallReg(RegId),
    CallMem(Mem),
    Ret,
    /// Raises the invalid opcode exception.
    Ud2,
    DefineLabel(Label),
    DefineLocal(LocalLabel),
    /// Fills up to a multiple of so many bytes.
    Align(u32),
    /// Four bytes of data.
    Dword(i32),
    /// Eight bytes of data.
    Qword(i64),
}

impl Operand {
    pub open spec fn rq(r: RegId) -> Operand {
        Operand::Gpr(GPR::Rq(r))
    }

    pub open spec fn rx(r: RegId) -> Operand {
        Operand::Gpr(GPR::Rx(r))
    }

    /// The word at `disp` bytes from the address in `base`.
    pub open spec fn at(base: RegId, disp: i32) -> Operand {
        Operand::Mem(Mem { base, index: None, disp })
    }
}

} // verus!
