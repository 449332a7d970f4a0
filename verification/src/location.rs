//! Where values are kept, and where the calling convention puts them.

use vstd::prelude::*;

use crate::microwasm::{Ieee32, Ieee64, SignlessType, Value};
use crate::registers::{rq, RegId, Registers, GPR};

verus! {

/// Size of a pointer on the target in bytes.
pub const WORD_SIZE: u32 = 8;

/// Offset from starting value of SP counted in words.
#[derive(Debug, Copy, Clone, PartialEq, Eq, Structural)]
pub struct StackDepth(pub u32);

impl Default for StackDepth {
    fn default() -> (depth: Self)
        ensures
            depth == StackDepth(0),
    {
        StackDepth(0)
    }
}

impl StackDepth {
    /// Makes the stack deeper by `slots` words.
    pub fn reserve(&mut self, slots: u32)
        requires
            old(self).0 + slots <= u32::MAX,
        ensures
            final(self).0 == old(self).0 + slots,
    {
        self.0 = self.0 + slots;
    }

    /// Gives `slots` words of the stack back.
    pub fn free(&mut self, slots: u32)
        requires
            slots <= old(self).0,
        ensures
            final(self).0 == old(self).0 - slots,
    {
        self.0 = self.0 - slots;
    }
}

/// Where an argument or a result of a function or a block is passed.
#[derive(Debug, Copy, Clone, PartialEq, Eq, Structural)]
pub enum CCLoc {
    /// Value exists in a register.
    Reg(GPR),
    /// Value exists on the stack.
    Stack(i32),
}

/// Describes location of a value.
#[derive(Debug, Copy, Clone, PartialEq, Eq, Structural)]
pub enum ValueLocation {
    /// Value exists in a register.
    Reg(GPR),
    /// Value exists on the stack. Note that this offset is from the rsp as it
    /// was when we entered the function.
    Stack(i32),
    /// Value is a literal
    Immediate(Value),
}

impl From<CCLoc> for ValueLocation {
    fn from(other: CCLoc) -> (loc: Self) {
        match other {
            CCLoc::Reg(r) => ValueLocation::Reg(r),
            CCLoc::Stack(o) => ValueLocation::Stack(o),
        }
    }
}

impl vstd::std_specs::convert::FromSpecImpl<CCLoc> for ValueLocation {
    open spec fn obeys_from_spec() -> bool {
        true
    }

    open spec fn from_spec(other: CCLoc) -> ValueLocation {
        other.as_value()
    }
}

impl CCLoc {
    /// The place of a value that is passed here.
    pub open spec fn as_value(self) -> ValueLocation {
        match self {
            CCLoc::Reg(r) => ValueLocation::Reg(r),
            CCLoc::Stack(o) => ValueLocation::Stack(o),
        }
    }
}

impl ValueLocation {
    pub open spec fn spec_immediate(self) -> Option<Value> {
        match self {
            ValueLocation::Immediate(i) => Some(i),
            _ => None,
        }
    }

    /// The constant, if this is a literal.
    #[verifier::when_used_as_spec(spec_immediate)]
    pub fn immediate(self) -> (imm: Option<Value>)
        ensures
            imm == self.spec_immediate(),
    {
        match self {
            ValueLocation::Immediate(i) => Some(i),
            _ => None,
        }
    }

    pub open spec fn spec_imm_i32(self) -> Option<i32> {
        match self {
            ValueLocation::Immediate(i) => i.as_i32(),
            _ => None,
        }
    }

    /// The constant, if this is a literal of type `i32`.
    #[verifier::when_used_as_spec(spec_imm_i32)]
    pub fn imm_i32(self) -> (imm: Option<i32>)
        ensures
            imm == self.spec_imm_i32(),
    {
        match self.immediate() {
            Some(i) => i.as_i32(),
            None => None,
        }
    }

    pub open spec fn spec_imm_i64(self) -> Option<i64> {
        match self {
            ValueLocation::Immediate(i) => i.as_i64(),
            _ => None,
        }
    }

    /// The constant, if this is a literal of type `i64`.
    #[verifier::when_used_as_spec(spec_imm_i64)]
    pub fn imm_i64(self) -> (imm: Option<i64>)
        ensures
            imm == self.spec_imm_i64(),
    {
        match self.immediate() {
            Some(i) => i.as_i64(),
            None => None,
        }
    }

    pub open spec fn spec_imm_f32(self) -> Option<Ieee32> {
        match self {
            ValueLocation::Immediate(i) => i.as_f32(),
            _ => None,
        }
    }

    /// The constant, if this is a literal of type `f32`.
    #[verifier::when_used_as_spec(spec_imm_f32)]
    pub fn imm_f32(self) -> (imm: Option<Ieee32>)
        ensures
            imm == self.spec_imm_f32(),
    {
        match self.immediate() {
            Some(i) => i.as_f32(),
            None => None,
        }
    }

    pub open spec fn spec_imm_f64(self) -> Option<Ieee64> {
        match self {
            ValueLocation::Immediate(i) => i.as_f64(),
            _ => None,
        }
    }

    /// The constant, if this is a literal of type `f64`.
    #[verifier::when_used_as_spec(spec_imm_f64)]
    pub fn imm_f64(self) -> (imm: Option<Ieee64>)
        ensures
            imm == self.spec_imm_f64(),
    {
        match self.immediate() {
            Some(i) => i.as_f64(),
            None => None,
        }
    }
}

/// A value on the logical stack. The logical stack is the value stack as it
/// is visible to the WebAssembly, whereas the physical stack is the stack as
/// it exists on the machine (i.e. as offsets in memory relative to `rsp`).
#[derive(Debug, Copy, Clone, PartialEq, Eq, Structural)]
pub enum StackValue {
    /// This value has a "real" location, either in a register, on the stack,
    /// in an immediate, etc.
    Value(ValueLocation),
    /// This value is on the physical stack and so should be accessed
    /// with the `pop` instruction.
    Pop,
}

impl StackValue {
    /// Returns either the location that this value can be accessed at
    /// if possible. If this value is `Pop`, you can only access it by
    /// popping the physical stack and so this function returns `None`.
    pub fn location(&self) -> (loc: Option<ValueLocation>)
        ensures
            loc == (match *self {
                StackValue::Value(loc) => Some(loc),
                StackValue::Pop => None,
            }),
    {
        match *self {
            StackValue::Value(loc) => Some(loc),
            StackValue::Pop => None,
        }
    }
}

/// How arguments are passed to a block or a function.
#[derive(Debug, Clone)]
pub struct CallingConvention {
    pub stack_depth: StackDepth,
    pub arguments: Vec<CCLoc>,
}

impl CallingConvention {
    /// The convention at the start of a function whose arguments are passed in `args`.
    pub fn function_start(args: Vec<CCLoc>) -> (cc: Self)
        ensures
            cc.stack_depth == StackDepth(1),
            cc.arguments@ == args@,
    {
        CallingConvention {
            // We start and return the function with stack depth 1 since we must
            // allow space for the saved return address.
            stack_depth: StackDepth(1),
            arguments: args,
        }
    }
}

/// A snapshot of the value stack and of the depth of the machine's stack.
#[derive(Debug, Clone)]
pub struct VirtualCallingConvention {
    pub stack: Vec<ValueLocation>,
    pub depth: StackDepth,
}

/// What is known of all values at some point of a block.
#[derive(Debug, Clone)]
pub struct BlockState {
    pub stack: Vec<ValueLocation>,
    /// How many words deep the machine's stack is. Each word that is pushed on it or popped from
    /// it increments or decrements this value by 1; pushes and pops on the value stack leave it
    /// alone.
    pub depth: StackDepth,
    pub regs: Registers,
}

impl Default for BlockState {
    fn default() -> (state: Self)
        ensures
            state.stack@ == Seq::<ValueLocation>::empty(),
            state.depth == StackDepth(0),
            state.regs@ == crate::registers::RegState::initial(),
    {
        BlockState { stack: Vec::new(), depth: StackDepth(0), regs: Registers::new() }
    }
}

/// How accesses to the linear memory are kept within bounds.
pub enum MemoryAccessMode {
    /// This is slower than using `Unchecked` mode, but works in
    /// any scenario (the most important scenario being when we're
    /// running on a system that can't index much more memory than
    /// the Wasm).
    Checked,
    /// This means that checks are _not emitted by the compiler_!
    /// If you're using WebAssembly to run untrusted code, you
    /// _must_ delegate bounds checking somehow (probably by
    /// allocating 2^33 bytes of memory with the second half set
    /// to unreadable/unwriteable/unexecutable)
    Unchecked,
}

/// What is left to be done at the end of a function.
#[must_use]
#[derive(Debug, Clone)]
pub struct FunctionEnd {
    pub should_generate_epilogue: bool,
}

// In the System V calling convention the first 6 integer arguments are passed in registers, and
// `rdi`, the first of them, holds the VM context. All other arguments are passed on the stack.

/// The registers for integer arguments.
pub const INTEGER_ARGS_IN_GPRS: [RegId; 5] = [rq::RSI, rq::RDX, rq::RCX, rq::R8, rq::R9];

/// The registers for integer results.
pub const INTEGER_RETURN_GPRS: [RegId; 2] = [rq::RAX, rq::RDX];

/// The vector registers for floating-point arguments.
pub const FLOAT_ARGS_IN_GPRS: [RegId; 8] = [0, 1, 2, 3, 4, 5, 6, 7];

/// The vector registers for floating-point results.
pub const FLOAT_RETURN_GPRS: [RegId; 2] = [0, 1];

/// The register that holds the VM context.
pub const VMCTX: RegId = rq::RDI;

pub open spec fn is_int(ty: SignlessType) -> bool {
    ty is I32 || ty is I64
}

/// How many of the first `n` types are integers.
pub open spec fn ints_before(types: Seq<SignlessType>, n: int) -> int
    decreases n,
{
    if n <= 0 {
        0
    } else {
        ints_before(types, n - 1) + (if is_int(types[n - 1]) {
            1int
        } else {
            0int
        })
    }
}

/// How many of the first `n` types are floating-point types.
pub open spec fn floats_before(types: Seq<SignlessType>, n: int) -> int {
    n - ints_before(types, n)
}

/// Where argument number `i` of a function with these parameters is passed.
pub open spec fn arg_loc(types: Seq<SignlessType>, i: int) -> CCLoc {
    if is_int(types[i]) {
        let nth = ints_before(types, i);
        if nth < 5 {
            CCLoc::Reg(GPR::Rq(INTEGER_ARGS_IN_GPRS[nth]))
        } else {
            CCLoc::Stack((nth - 5) as i32)
        }
    } else {
        CCLoc::Reg(GPR::Rx(FLOAT_ARGS_IN_GPRS[floats_before(types, i)]))
    }
}

/// Where the arguments of a function with these parameters are passed.
pub open spec fn arg_locs_of(types: Seq<SignlessType>) -> Seq<CCLoc> {
    Seq::new(types.len(), |i: int| arg_loc(types, i))
}

/// Whether these parameters can be passed: floating-point arguments are passed in registers only.
pub open spec fn passable_args(types: Seq<SignlessType>) -> bool {
    &&& floats_before(types, types.len() as int) <= 8
    &&& ints_before(types, types.len() as int) - 5 <= i32::MAX
}

/// Where result number `i` of a function with these results is passed.
pub open spec fn ret_loc(types: Seq<SignlessType>, i: int) -> CCLoc {
    if is_int(types[i]) {
        CCLoc::Reg(GPR::Rq(INTEGER_RETURN_GPRS[ints_before(types, i)]))
    } else {
        CCLoc::Reg(GPR::Rx(FLOAT_RETURN_GPRS[floats_before(types, i)]))
    }
}

/// Where the results of a function with these result types are passed.
pub open spec fn ret_locs_of(types: Seq<SignlessType>) -> Seq<CCLoc> {
    Seq::new(types.len(), |i: int| ret_loc(types, i))
}

/// Whether these results can be passed: results are passed in registers only.
pub open spec fn passable_rets(types: Seq<SignlessType>) -> bool {
    &&& floats_before(types, types.len() as int) <= 2
    &&& ints_before(types, types.len() as int) <= 2
}

pub proof fn lemma_ints_before(types: Seq<SignlessType>, i: int, j: int)
    requires
        0 <= i <= j,
    ensures
        0 <= ints_before(types, i) <= ints_before(types, j),
        0 <= floats_before(types, i) <= floats_before(types, j),
    decreases j,
{
    if i < j {
        lemma_ints_before(types, i, j - 1);
    } else if j > 0 {
        lemma_ints_before(types, i - 1, j - 1);
    }
}

/// Where the arguments of a function with the parameters `types` are passed: integers in the
/// registers of the calling convention and then on the stack, floating-point numbers in vector
/// registers.
pub fn arg_locs(types: &[SignlessType]) -> (locs: Vec<CCLoc>)
    requires
        passable_args(types@),
    ensures
        locs@ == arg_locs_of(types@),
{
    let mut out: Vec<CCLoc> = Vec::with_capacity(types.len());
    let mut ints: usize = 0;
    let mut floats: usize = 0;
    let mut stack_idx: i32 = 0;
    let mut i: usize = 0;
    while i < types.len()
        invariant
            i <= types.len(),
            passable_args(types@),
            0 <= ints <= 5,
            0 <= stack_idx,
            ints < 5 ==> ints == ints_before(types@, i as int) && stack_idx == 0,
            ints + stack_idx == ints_before(types@, i as int),
            floats == floats_before(types@, i as int),
            out@ == arg_locs_of(types@).take(i as int),
        decreases types.len() - i,
    {
        proof {
            lemma_ints_before(types@, i + 1, types@.len() as int);
            lemma_ints_before(types@, i as int, i + 1);
        }
        match types[i] {
            SignlessType::I32 | SignlessType::I64 => {
                if ints < 5 {
                    out.push(CCLoc::Reg(GPR::Rq(INTEGER_ARGS_IN_GPRS[ints])));
                    ints = ints + 1;
                } else {
                    out.push(CCLoc::Stack(stack_idx));
                    stack_idx = stack_idx + 1;
                }
            },
            SignlessType::F32 | SignlessType::F64 => {
                out.push(CCLoc::Reg(GPR::Rx(FLOAT_ARGS_IN_GPRS[floats])));
                floats = floats + 1;
            },
        }
        proof {
            assert(arg_locs_of(types@).take(i + 1) =~= arg_locs_of(types@).take(i as int).push(
                arg_loc(types@, i as int),
            ));
        }
        i = i + 1;
    }
    proof {
        assert(arg_locs_of(types@).take(types@.len() as int) =~= arg_locs_of(types@));
    }
    out
}

/// Where the results of a function with the result types `types` are passed.
pub fn ret_locs(types: &[SignlessType]) -> (locs: Vec<CCLoc>)
    requires
        passable_rets(types@),
    ensures
        locs@ == ret_locs_of(types@),
{
    let mut out: Vec<CCLoc> = Vec::with_capacity(types.len());
    let mut ints: usize = 0;
    let mut floats: usize = 0;
    let mut i: usize = 0;
    while i < types.len()
        invariant
            i <= types.len(),
            passable_rets(types@),
            ints == ints_before(types@, i as int),
            floats == floats_before(types@, i as int),
            out@ == ret_locs_of(types@).take(i as int),
        decreases types.len() - i,
    {
        proof {
            lemma_ints_before(types@, i + 1, types@.len() as int);
            lemma_ints_before(types@, i as int, i + 1);
        }
        match types[i] {
            SignlessType::I32 | SignlessType::I64 => {
                out.push(CCLoc::Reg(GPR::Rq(INTEGER_RETURN_GPRS[ints])));
                ints = ints + 1;
            },
            SignlessType::F32 | SignlessType::F64 => {
                out.push(CCLoc::Reg(GPR::Rx(FLOAT_RETURN_GPRS[floats])));
                floats = floats + 1;
            },
        }
        proof {
            assert(ret_locs_of(types@).take(i + 1) =~= ret_locs_of(types@).take(i as int).push(
                ret_loc(types@, i as int),
            ));
        }
        i = i + 1;
    }
    proof {
        assert(ret_locs_of(types@).take(types@.len() as int) =~= ret_locs_of(types@));
    }
    out
}

} // verus!
