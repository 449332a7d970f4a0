//! The machine's registers and the allocator that hands them out.
//!
//! Every register has a usage count. A register is free while its count is zero; only free
//! registers are handed out, the one with the lowest number first.

pub mod rq;

use vstd::prelude::*;
use vstd::std_specs::bits::axiom_u16_trailing_zeros;

use crate::bits::{lemma_ones_step, ones};
use crate::microwasm::SignlessType;

verus! {

/// The number of a register within its file.
pub type RegId = u8;

/// How many registers each of the two files has.
pub const NUM_GPRS: u8 = 16;

/// A register.
#[derive(Copy, Clone, Debug, Hash, PartialEq, Eq, Structural)]
pub enum GPR {
    /// A general-purpose register of 64 bits (`rax`, for example).
    Rq(RegId),
    /// A vector register of 128 bits (`xmm0`, for example).
    Rx(RegId),
}

/// A register file.
#[derive(Copy, Clone, Debug, Hash, PartialEq, Eq, Structural)]
pub enum GPRType {
    Rq,
    Rx,
}

impl From<SignlessType> for GPRType {
    fn from(other: SignlessType) -> (ty: GPRType) {
        match other {
            SignlessType::I32 | SignlessType::I64 => GPRType::Rq,
            SignlessType::F32 | SignlessType::F64 => GPRType::Rx,
        }
    }
}

impl vstd::std_specs::convert::FromSpecImpl<SignlessType> for GPRType {
    open spec fn obeys_from_spec() -> bool {
        true
    }

    open spec fn from_spec(other: SignlessType) -> GPRType {
        match other {
            SignlessType::I32 | SignlessType::I64 => GPRType::Rq,
            SignlessType::F32 | SignlessType::F64 => GPRType::Rx,
        }
    }
}

impl GPR {
    pub open spec fn spec_type_(self) -> GPRType {
        match self {
            GPR::Rq(_) => GPRType::Rq,
            GPR::Rx(_) => GPRType::Rx,
        }
    }

    /// The file that this register belongs to.
    #[verifier::when_used_as_spec(spec_type_)]
    pub fn type_(self) -> (ty: GPRType)
        ensures
            ty == self.spec_type_(),
    {
        match self {
            GPR::Rq(_) => GPRType::Rq,
            GPR::Rx(_) => GPRType::Rx,
        }
    }

    pub open spec fn spec_rq(self) -> Option<RegId> {
        match self {
            GPR::Rq(r) => Some(r),
            GPR::Rx(_) => None,
        }
    }

    /// The number of this register, if it is a general-purpose register.
    #[verifier::when_used_as_spec(spec_rq)]
    pub fn rq(self) -> (id: Option<RegId>)
        ensures
            id == self.spec_rq(),
    {
        match self {
            GPR::Rq(r) => Some(r),
            GPR::Rx(_) => None,
        }
    }

    pub open spec fn spec_rx(self) -> Option<RegId> {
        match self {
            GPR::Rx(r) => Some(r),
            GPR::Rq(_) => None,
        }
    }

    /// The number of this register, if it is a vector register.
    #[verifier::when_used_as_spec(spec_rx)]
    pub fn rx(self) -> (id: Option<RegId>)
        ensures
            id == self.spec_rx(),
    {
        match self {
            GPR::Rx(r) => Some(r),
            GPR::Rq(_) => None,
        }
    }

    /// The number of this register within its file.
    pub open spec fn id(self) -> RegId {
        match self {
            GPR::Rq(r) => r,
            GPR::Rx(r) => r,
        }
    }

    /// The register number `id` of the file `ty`.
    pub open spec fn make(ty: GPRType, id: RegId) -> GPR {
        match ty {
            GPRType::Rq => GPR::Rq(id),
            GPRType::Rx => GPR::Rx(id),
        }
    }

    /// Whether the machine has such a register.
    pub open spec fn valid(self) -> bool {
        self.id() < NUM_GPRS
    }
}

/// The registers that a function may use without saving them first, as the System V calling
/// convention has it. `rdi` holds the VM context and is left out.
pub const SCRATCH_RQ: [RegId; 8] = [
    rq::RSI,
    rq::RDX,
    rq::RCX,
    rq::R8,
    rq::R9,
    rq::RAX,
    rq::R10,
    rq::R11,
];

/// Whether `gpr` is one of the registers that the allocator hands out.
pub open spec fn is_scratch(gpr: GPR) -> bool {
    match gpr {
        GPR::Rq(r) => r <= rq::RDX || rq::RSI == r || rq::R8 <= r <= rq::R11,
        GPR::Rx(r) => r < NUM_GPRS,
    }
}

/// Whether `gpr` is one of the registers that the allocator hands out.
pub fn scratch(gpr: GPR) -> (b: bool)
    ensures
        b == is_scratch(gpr),
{
    match gpr {
        GPR::Rq(r) => r <= rq::RDX || r == rq::RSI || (rq::R8 <= r && r <= rq::R11),
        GPR::Rx(r) => r < NUM_GPRS,
    }
}

/// The least index from `from` on at which `counts` is zero, or its length.
pub open spec fn first_zero(counts: Seq<u8>, from: int) -> int
    decreases counts.len() - from,
{
    if from >= counts.len() {
        counts.len() as int
    } else if counts[from] == 0 {
        from
    } else {
        first_zero(counts, from + 1)
    }
}

/// How many entries of `counts` from `from` on are zero.
pub open spec fn zeros_from(counts: Seq<u8>, from: int) -> nat
    decreases counts.len() - from,
{
    if from >= counts.len() {
        0
    } else {
        (if counts[from] == 0 {
            1nat
        } else {
            0nat
        }) + zeros_from(counts, from + 1)
    }
}

/// The usage counts of all registers.
#[verifier::ext_equal]
pub struct RegState {
    pub rq: Seq<u8>,
    pub rx: Seq<u8>,
}

impl RegState {
    pub open spec fn file(self, ty: GPRType) -> Seq<u8> {
        match ty {
            GPRType::Rq => self.rq,
            GPRType::Rx => self.rx,
        }
    }

    pub open spec fn with_file(self, ty: GPRType, counts: Seq<u8>) -> RegState {
        match ty {
            GPRType::Rq => RegState { rq: counts, ..self },
            GPRType::Rx => RegState { rx: counts, ..self },
        }
    }

    /// How often `gpr` is in use.
    pub open spec fn count(self, gpr: GPR) -> u8 {
        self.file(gpr.type_())[gpr.id() as int]
    }

    pub open spec fn is_free(self, gpr: GPR) -> bool {
        self.count(gpr) == 0
    }

    /// The same counts but for `gpr`, which is used `count` times.
    pub open spec fn with_count(self, gpr: GPR, count: u8) -> RegState {
        self.with_file(
            gpr.type_(),
            self.file(gpr.type_()).update(gpr.id() as int, count),
        )
    }

    /// One more use of `gpr`.
    pub open spec fn mark_used(self, gpr: GPR) -> RegState {
        self.with_count(gpr, (self.count(gpr) + 1) as u8)
    }

    /// One use of `gpr` less.
    pub open spec fn release(self, gpr: GPR) -> RegState {
        self.with_count(gpr, (self.count(gpr) - 1) as u8)
    }

    /// Whether the file `ty` has a free register left.
    pub open spec fn can_take(self, ty: GPRType) -> bool {
        first_zero(self.file(ty), 0) < self.file(ty).len()
    }

    /// The free register of the file `ty` with the lowest number.
    pub open spec fn lowest_free(self, ty: GPRType) -> GPR {
        GPR::make(ty, first_zero(self.file(ty), 0) as RegId)
    }

    /// Whether both files have their sixteen registers.
    pub open spec fn wf(self) -> bool {
        self.rq.len() == NUM_GPRS && self.rx.len() == NUM_GPRS
    }

    /// The counts at the start: the registers that the allocator hands out are free, all others
    /// are used once and so are never handed out.
    pub open spec fn initial() -> RegState {
        RegState {
            rq: Seq::new(
                NUM_GPRS as nat,
                |i: int|
                    if is_scratch(GPR::Rq(i as RegId)) {
                        0u8
                    } else {
                        1u8
                    },
            ),
            rx: Seq::new(NUM_GPRS as nat, |i: int| 0u8),
        }
    }
}

pub proof fn lemma_first_zero(counts: Seq<u8>, from: int)
    requires
        0 <= from <= counts.len(),
    ensures
        from <= first_zero(counts, from) <= counts.len(),
        first_zero(counts, from) < counts.len() ==> counts[first_zero(counts, from)] == 0,
        forall|i: int| from <= i < first_zero(counts, from) ==> counts[i] != 0,
    decreases counts.len() - from,
{
    if from < counts.len() && counts[from] != 0 {
        lemma_first_zero(counts, from + 1);
    }
}

/// What `lowest_free` promises: the register is free and valid, and every register of the same
/// file with a lower number is in use.
pub proof fn lemma_lowest_free(regs: RegState, ty: GPRType)
    requires
        regs.wf(),
        regs.can_take(ty),
    ensures
        regs.lowest_free(ty).valid(),
        regs.lowest_free(ty).type_() == ty,
        regs.is_free(regs.lowest_free(ty)),
        forall|r: RegId|
            r < regs.lowest_free(ty).id() ==> !regs.is_free(#[trigger] GPR::make(ty, r)),
{
    lemma_first_zero(regs.file(ty), 0);
}

/// A set of register numbers, one bit each.
#[derive(Debug, Copy, Clone)]
struct GPRs {
    bits: u16,
}

spec fn bit(bits: u16, gpr: RegId) -> bool {
    bits & (1u16 << (gpr as u16)) != 0
}

proof fn lemma_clear(bits: u16, gpr: RegId)
    requires
        gpr < NUM_GPRS,
    ensures
        forall|i: RegId|
            i < NUM_GPRS ==> #[trigger] bit(bits & !(1u16 << (gpr as u16)), i) == (i != gpr && bit(
                bits,
                i,
            )),
{
    assert forall|i: RegId| i < NUM_GPRS implies #[trigger] bit(
        bits & !(1u16 << (gpr as u16)),
        i,
    ) == (i != gpr && bit(bits, i)) by {
        let s = gpr as u16;
        let j = i as u16;
        assert(j != s && j < 16 && s < 16 ==> (bits & !(1u16 << s)) & (1u16 << j) == bits & (1u16
            << j)) by (bit_vector);
        assert(s < 16 ==> (bits & !(1u16 << s)) & (1u16 << s) == 0) by (bit_vector);
    }
}

proof fn lemma_set(bits: u16, gpr: RegId)
    requires
        gpr < NUM_GPRS,
    ensures
        forall|i: RegId|
            i < NUM_GPRS ==> #[trigger] bit(bits | (1u16 << (gpr as u16)), i) == (i == gpr || bit(
                bits,
                i,
            )),
{
    assert forall|i: RegId| i < NUM_GPRS implies #[trigger] bit(
        bits | (1u16 << (gpr as u16)),
        i,
    ) == (i == gpr || bit(bits, i)) by {
        let s = gpr as u16;
        let j = i as u16;
        assert(j != s && j < 16 && s < 16 ==> (bits | (1u16 << s)) & (1u16 << j) == bits & (1u16
            << j)) by (bit_vector);
        assert(s < 16 ==> (bits | (1u16 << s)) & (1u16 << s) != 0) by (bit_vector);
    }
}

impl GPRs {
    /// Whether `gpr` is in the set.
    spec fn has(self, gpr: RegId) -> bool {
        bit(self.bits, gpr)
    }

    fn new() -> (set: Self)
        ensures
            forall|i: RegId| i < NUM_GPRS ==> !#[trigger] set.has(i),
    {
        proof {
            assert forall|i: RegId| i < NUM_GPRS implies !#[trigger] bit(0, i) by {
                let j = i as u16;
                assert(0u16 & (1u16 << j) == 0) by (bit_vector);
            }
        }
        Self { bits: 0 }
    }

    /// Takes the lowest number out of the set.
    fn take(&mut self) -> (gpr: RegId)
        requires
            exists|i: RegId| i < NUM_GPRS && #[trigger] old(self).has(i),
        ensures
            gpr < NUM_GPRS,
            old(self).has(gpr),
            forall|i: RegId| i < gpr ==> !#[trigger] old(self).has(i),
            forall|i: RegId|
                i < NUM_GPRS ==> #[trigger] final(self).has(i) == (i != gpr && old(self).has(i)),
    {
        let lz = self.bits.trailing_zeros();
        proof {
            let bits = self.bits;
            axiom_u16_trailing_zeros(bits);
            let i = choose|i: RegId| i < NUM_GPRS && #[trigger] self.has(i);
            let j = i as u16;
            assert(bits & (1u16 << j) != 0 ==> bits != 0) by (bit_vector);
            let tz = lz as u16;
            assert(tz < 16 && (bits >> tz) & 1u16 == 1u16 ==> bits & (1u16 << tz) != 0)
                by (bit_vector);
            assert forall|i: RegId| i < lz implies !#[trigger] self.has(i) by {
                let j = i as u16;
                assert((bits >> j) & 1u16 == 0u16);
                assert(j < 16 && (bits >> j) & 1u16 == 0u16 ==> bits & (1u16 << j) == 0)
                    by (bit_vector);
            }
        }
        let gpr: RegId = lz as RegId;
        self.mark_used(gpr);
        gpr
    }

    /// Takes `gpr` out of the set.
    fn mark_used(&mut self, gpr: RegId)
        requires
            gpr < NUM_GPRS,
        ensures
            forall|i: RegId|
                i < NUM_GPRS ==> #[trigger] final(self).has(i) == (i != gpr && old(self).has(i)),
    {
        proof {
            lemma_clear(self.bits, gpr);
        }
        self.bits = self.bits & !(1u16 << (gpr as u16));
    }

    /// Puts `gpr` into the set.
    fn release(&mut self, gpr: RegId)
        requires
            gpr < NUM_GPRS,
            !old(self).has(gpr),
        ensures
            forall|i: RegId|
                i < NUM_GPRS ==> #[trigger] final(self).has(i) == (i == gpr || old(self).has(i)),
    {
        proof {
            lemma_set(self.bits, gpr);
        }
        self.bits = self.bits | (1u16 << (gpr as u16));
    }

    /// How many numbers are in the set.
    fn free_count(&self) -> (count: u32)
        ensures
            count == ones(self.bits as nat),
    {
        self.bits.count_ones()
    }

    fn is_free(&self, gpr: RegId) -> (free: bool)
        requires
            gpr < NUM_GPRS,
        ensures
            free == self.has(gpr),
    {
        (self.bits & (1u16 << (gpr as u16))) != 0
    }
}

proof fn lemma_ones_zeros(bits: u16, counts: Seq<u8>, from: u16)
    requires
        counts.len() == NUM_GPRS,
        from <= NUM_GPRS,
        forall|i: RegId| i < NUM_GPRS ==> (#[trigger] bit(bits, i) <==> counts[i as int] == 0),
    ensures
        ones((bits >> from) as nat) == zeros_from(counts, from as int),
    decreases NUM_GPRS - from,
{
    if from == NUM_GPRS {
        assert(bits >> 16u16 == 0) by (bit_vector);
    } else {
        let next = (from + 1) as u16;
        lemma_ones_zeros(bits, counts, next);
        lemma_ones_step((bits >> from) as nat);
        assert((bits >> from) / 2 == bits >> next && (bits >> from) % 2 == (if bits & (1u16
            << from) != 0 {
            1u16
        } else {
            0u16
        })) by (bit_vector)
            requires
                from < 16,
                next == from + 1,
        ;
        assert(bit(bits, from as RegId) <==> counts[from as int] == 0);
    }
}

/// A register file: the usage count of each register, and the set of those that are free.
#[derive(Debug, Copy, Clone)]
struct RegFile {
    free: GPRs,
    counts: [u8; 16],
}

impl RegFile {
    /// The registers that are free are those whose count is zero.
    #[verifier::type_invariant]
    spec fn inv(self) -> bool {
        forall|i: RegId|
            i < NUM_GPRS ==> (#[trigger] self.free.has(i) <==> self.counts[i as int] == 0)
    }

    /// A file in which every register is used once.
    fn new() -> (file: Self)
        ensures
            file.counts@ == Seq::new(NUM_GPRS as nat, |i: int| 1u8),
    {
        let file = RegFile { free: GPRs::new(), counts: [1u8;16] };
        assert(file.counts@ =~= Seq::new(NUM_GPRS as nat, |i: int| 1u8));
        file
    }

    fn mark_used(&mut self, gpr: RegId)
        requires
            gpr < NUM_GPRS,
            old(self).counts[gpr as int] < u8::MAX,
        ensures
            final(self).counts@ == old(self).counts@.update(
                gpr as int,
                (old(self).counts[gpr as int] + 1) as u8,
            ),
    {
        proof {
            use_type_invariant(&*self);
        }
        let mut free = self.free;
        let mut counts: [u8; 16] = self.counts;
        free.mark_used(gpr);
        counts[gpr as usize] = counts[gpr as usize] + 1;
        *self = RegFile { free, counts };
    }

    fn take(&mut self) -> (gpr: RegId)
        requires
            first_zero(old(self).counts@, 0) < NUM_GPRS,
        ensures
            gpr == first_zero(old(self).counts@, 0),
            gpr < NUM_GPRS,
            final(self).counts@ == old(self).counts@.update(gpr as int, 1),
    {
        let mut free = self.free;
        let mut counts: [u8; 16] = self.counts;
        proof {
            use_type_invariant(&*self);
            lemma_first_zero(self.counts@, 0);
            assert(free.has(first_zero(self.counts@, 0) as RegId));
        }
        let gpr: RegId = free.take();
        proof {
            let z = first_zero(self.counts@, 0);
            assert(self.free.has(gpr));
            assert(self.free.has(z as RegId));
        }
        counts[gpr as usize] = counts[gpr as usize] + 1;
        *self = RegFile { free, counts };
        gpr
    }

    fn release(&mut self, gpr: RegId)
        requires
            gpr < NUM_GPRS,
            old(self).counts[gpr as int] > 0,
        ensures
            final(self).counts@ == old(self).counts@.update(
                gpr as int,
                (old(self).counts[gpr as int] - 1) as u8,
            ),
    {
        proof {
            use_type_invariant(&*self);
            assert(!self.free.has(gpr));
        }
        let mut free = self.free;
        let mut counts: [u8; 16] = self.counts;
        let c: u8 = counts[gpr as usize] - 1;
        counts[gpr as usize] = c;
        if c == 0 {
            free.release(gpr);
        }
        *self = RegFile { free, counts };
    }
}

/// The state of all registers.
#[derive(Debug, Copy, Clone)]
pub struct Registers {
    /// Registers at 64 bits and below (al/ah/ax/eax/rax, for example)
    scratch_64: RegFile,
    /// Registers at 128 bits (xmm0, for example)
    scratch_128: RegFile,
}

impl View for Registers {
    type V = RegState;

    closed spec fn view(&self) -> RegState {
        RegState { rq: self.scratch_64.counts@, rx: self.scratch_128.counts@ }
    }
}

impl Default for Registers {
    fn default() -> (regs: Self)
        ensures
            regs@ == RegState::initial(),
    {
        Self::new()
    }
}

impl Registers {
    /// Every register has a count.
    pub broadcast proof fn lemma_view_wf(self)
        ensures
            #[trigger] self@.wf(),
    {
    }

    /// The registers at the start of a function.
    pub fn new() -> (regs: Self)
        ensures
            regs@ == RegState::initial(),
    {
        let mut result = Self { scratch_64: RegFile::new(), scratch_128: RegFile::new() };
        let mut i: usize = 0;
        while i < 8
            invariant
                i <= 8,
                result@.wf(),
                forall|r: RegId|
                    r < NUM_GPRS ==> #[trigger] result@.rq[r as int] == (if exists|j: int|
                        0 <= j < i && SCRATCH_RQ[j] == r {
                        0u8
                    } else {
                        1u8
                    }),
                forall|r: RegId| r < NUM_GPRS ==> #[trigger] result@.rx[r as int] == 1,
            decreases 8 - i,
        {
            let r: RegId = SCRATCH_RQ[i];
            let ghost before = result@;
            proof {
                assert(before.rq[r as int] == 1) by {
                    if exists|j: int| 0 <= j < i && SCRATCH_RQ[j] == r {
                        let j = choose|j: int| 0 <= j < i && SCRATCH_RQ[j] == r;
                        assert(SCRATCH_RQ[j] == SCRATCH_RQ[i as int]);
                    }
                }
            }
            result.release(GPR::Rq(r));
            proof {
                assert forall|q: RegId| q < NUM_GPRS implies #[trigger] result@.rq[q as int] == (
                if exists|j: int| 0 <= j < i + 1 && SCRATCH_RQ[j] == q {
                    0u8
                } else {
                    1u8
                }) by {
                    assert(before.rq[q as int] == (if exists|j: int|
                        0 <= j < i && SCRATCH_RQ[j] == q {
                        0u8
                    } else {
                        1u8
                    }));
                    if q == r {
                        assert(SCRATCH_RQ[i as int] == q);
                    }
                }
                assert forall|q: RegId| q < NUM_GPRS implies #[trigger] result@.rx[q as int]
                    == 1 by {
                    assert(before.rx[q as int] == 1);
                }
            }
            i = i + 1;
        }
        let mut x: RegId = 0;
        while x < NUM_GPRS
            invariant
                x <= NUM_GPRS,
                result@.wf(),
                forall|r: RegId|
                    r < NUM_GPRS ==> #[trigger] result@.rq[r as int] == (if exists|j: int|
                        0 <= j < 8 && SCRATCH_RQ[j] == r {
                        0u8
                    } else {
                        1u8
                    }),
                forall|r: RegId|
                    r < NUM_GPRS ==> #[trigger] result@.rx[r as int] == (if r < x {
                        0u8
                    } else {
                        1u8
                    }),
            decreases NUM_GPRS - x,
        {
            let ghost before = result@;
            result.release(GPR::Rx(x));
            proof {
                assert forall|q: RegId| q < NUM_GPRS implies #[trigger] result@.rx[q as int] == (
                if q < x + 1 {
                    0u8
                } else {
                    1u8
                }) by {
                    assert(before.rx[q as int] == (if q < x {
                        0u8
                    } else {
                        1u8
                    }));
                }
                assert(result@.rq == before.rq);
            }
            x = x + 1;
        }
        proof {
            let init = RegState::initial();
            assert forall|i: int| 0 <= i < NUM_GPRS implies result@.rq[i] == init.rq[i] by {
                let r = i as RegId;
                assert(result@.rq[r as int] == (if exists|j: int|
                    0 <= j < 8 && SCRATCH_RQ[j] == r {
                    0u8
                } else {
                    1u8
                }));
                assert(SCRATCH_RQ[0] == 6 && SCRATCH_RQ[1] == 2 && SCRATCH_RQ[2] == 1
                    && SCRATCH_RQ[3] == 8 && SCRATCH_RQ[4] == 9 && SCRATCH_RQ[5] == 0
                    && SCRATCH_RQ[6] == 10 && SCRATCH_RQ[7] == 11);
            }
            assert forall|i: int| 0 <= i < NUM_GPRS implies result@.rx[i] == init.rx[i] by {
                assert(result@.rx[i as RegId as int] == 0);
            }
            assert(result@ =~= init);
        }
        result
    }

    /// The number of `gpr` within its file, and that file.
    fn scratch_counts_mut(&mut self, gpr: GPR) -> (entry: (u8, &mut RegFile))
        ensures
            entry.0 == gpr.id(),
            match gpr {
                GPR::Rq(_) => {
                    &&& *entry.1 == old(self).scratch_64
                    &&& *final(self) == (Registers { scratch_64: *final(entry.1), ..*old(self) })
                },
                GPR::Rx(_) => {
                    &&& *entry.1 == old(self).scratch_128
                    &&& *final(self) == (Registers { scratch_128: *final(entry.1), ..*old(self) })
                },
            },
    {
        match gpr {
            GPR::Rq(r) => (r, &mut self.scratch_64),
            GPR::Rx(r) => (r, &mut self.scratch_128),
        }
    }

    /// The number of `gpr` within its file, and that file.
    fn scratch_counts(&self, gpr: GPR) -> (entry: (u8, &RegFile))
        ensures
            entry.0 == gpr.id(),
            *entry.1 == (match gpr {
                GPR::Rq(_) => self.scratch_64,
                GPR::Rx(_) => self.scratch_128,
            }),
    {
        match gpr {
            GPR::Rq(r) => (r, &self.scratch_64),
            GPR::Rx(r) => (r, &self.scratch_128),
        }
    }

    /// Adds one use of `gpr`.
    pub fn mark_used(&mut self, gpr: GPR)
        requires
            gpr.valid(),
            old(self)@.count(gpr) < u8::MAX,
        ensures
            final(self)@ == old(self)@.mark_used(gpr),
    {
        let (id, file) = self.scratch_counts_mut(gpr);
        file.mark_used(id);
    }

    /// How often `gpr` is in use.
    pub fn num_usages(&self, gpr: GPR) -> (count: u8)
        requires
            gpr.valid(),
        ensures
            count == self@.count(gpr),
    {
        let (id, file) = self.scratch_counts(gpr);
        file.counts[id as usize]
    }

    /// Hands out the free register of the file `ty` that has the lowest number. It is then used
    /// once.
    pub fn take(&mut self, ty: GPRType) -> (gpr: GPR)
        requires
            old(self)@.can_take(ty),
        ensures
            gpr == old(self)@.lowest_free(ty),
            gpr.valid(),
            final(self)@ == old(self)@.mark_used(gpr),
    {
        proof {
            lemma_first_zero(self@.file(ty), 0);
        }
        match ty {
            GPRType::Rq => {
                let out: RegId = self.scratch_64.take();
                GPR::Rq(out)
            },
            GPRType::Rx => {
                let out: RegId = self.scratch_128.take();
                GPR::Rx(out)
            },
        }
    }

    /// Takes one use of `gpr` away. With the last one `gpr` is free again.
    pub fn release(&mut self, gpr: GPR)
        requires
            gpr.valid(),
            old(self)@.count(gpr) > 0,
        ensures
            final(self)@ == old(self)@.release(gpr),
    {
        let (id, file) = self.scratch_counts_mut(gpr);
        file.release(id);
    }

    /// Whether `gpr` is free.
    pub fn is_free(&self, gpr: GPR) -> (free: bool)
        requires
            gpr.valid(),
        ensures
            free == self@.is_free(gpr),
    {
        let (id, file) = self.scratch_counts(gpr);
        proof {
            use_type_invariant(file);
            assert(file.free.has(id) <==> file.counts[id as int] == 0);
        }
        file.free.is_free(id)
    }

    /// How many general-purpose registers are free.
    pub fn free_64(&self) -> (count: u32)
        ensures
            count == zeros_from(self@.rq, 0),
    {
        proof {
            use_type_invariant(&self.scratch_64);
            let bits = self.scratch_64.free.bits;
            assert(bits >> 0u16 == bits) by (bit_vector);
            assert forall|i: RegId| i < NUM_GPRS implies (#[trigger] bit(bits, i)
                <==> self.scratch_64.counts@[i as int] == 0) by {
                assert(self.scratch_64.free.has(i) <==> self.scratch_64.counts[i as int] == 0);
            }
            lemma_ones_zeros(bits, self.scratch_64.counts@, 0);
        }
        self.scratch_64.free.free_count()
    }

    /// How many vector registers are free.
    pub fn free_128(&self) -> (count: u32)
        ensures
            count == zeros_from(self@.rx, 0),
    {
        proof {
            use_type_invariant(&self.scratch_128);
            let bits = self.scratch_128.free.bits;
            assert(bits >> 0u16 == bits) by (bit_vector);
            assert forall|i: RegId| i < NUM_GPRS implies (#[trigger] bit(bits, i)
                <==> self.scratch_128.counts@[i as int] == 0) by {
                assert(self.scratch_128.free.has(i) <==> self.scratch_128.counts[i as int] == 0);
            }
            lemma_ones_zeros(bits, self.scratch_128.counts@, 0);
        }
        self.scratch_128.free.free_count()
    }
}

} // verus!
