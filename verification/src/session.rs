//! Compiling the functions of a module one after another, and the code section that results.

use core::ops::Range;

use vstd::prelude::*;

use dynasmrt::ExecutableBuffer;

use crate::assembly::{Assembly, Label, Labels, Reloc};
use crate::context::Context;
use crate::insn::Insn;
use crate::labels::lemma_defined;
use crate::location::BlockState;
use crate::module_context::ModuleContext;
use crate::registers::{RegState, GPR};
use crate::state::State;

verus! {

#[verifier::external_type_specification]
#[verifier::external_body]
pub struct ExExecutableBuffer(ExecutableBuffer);

/// The bytes that an executable buffer holds.
pub uninterp spec fn executable_bytes(buf: ExecutableBuffer) -> Seq<u8>;

/// Whether the length of what was written to an executable buffer is no more than the size of
/// its mapping.
pub uninterp spec fn is_within_mapping(buf: ExecutableBuffer) -> bool;

/// `ExecutableBuffer::deref` gives the bytes that were written to the buffer. It panics if their
/// number is more than the size of the mapping.
#[verifier::external_body]
fn buffer_bytes(buf: &ExecutableBuffer) -> (bytes: &[u8])
    requires
        is_within_mapping(*buf),
    ensures
        bytes@ == executable_bytes(*buf),
{
    &**buf
}

/// `ExecutableBuffer::default` gives a buffer without a mapping, to which nothing was written.
#[verifier::external_body]
fn empty_buffer() -> (buf: ExecutableBuffer)
    ensures
        is_within_mapping(buf),
        executable_bytes(buf) == Seq::<u8>::empty(),
{
    ExecutableBuffer::default()
}

/// Why no code section was made.
#[derive(Debug)]
pub enum Error {
    Assembler(String),
}

/// The start of a function, as the index of its first instruction, and its label.
pub type FuncStart = (Option<usize>, Label);

/// The code generator for a module.
pub struct CodeGenSession<'a, M: ModuleContext> {
    pub out: Assembly,
    pub module_context: &'a M,
    pub func_starts: Vec<FuncStart>,
}

/// The state at the start of a function, before its arguments are known.
pub open spec fn function_state(out: Assembly, label: Label) -> State {
    State {
        stack: Seq::empty(),
        depth: 0,
        regs: RegState::initial(),
        code: out.code@.push(Insn::DefineLabel(label)),
        relocs: out.relocs@,
        label_count: out.label_count,
        labels: out.labels,
        ok: true,
    }
}

/// How many bytes the address that has to be filled in is away from the start of its function.
/// `offsets` tells where each instruction starts. The address is the immediate operand of a `mov`,
/// whose opcode is two bytes long.
pub open spec fn reloc_offset(reloc: Reloc, starts: Seq<FuncStart>, offsets: Seq<usize>) -> int {
    let start = offsets[starts[reloc.function as int].0->0 as int];
    ((offsets[reloc.at as int] - start) as usize as u32) + 2
}

/// Whether the place of this relocation is known.
pub open spec fn reloc_known(reloc: Reloc, starts: Seq<FuncStart>, offsets: Seq<usize>) -> bool {
    &&& reloc.function < starts.len()
    &&& starts[reloc.function as int].0 is Some
    &&& starts[reloc.function as int].0->0 < offsets.len()
    &&& reloc.at < offsets.len()
    &&& offsets[starts[reloc.function as int].0->0 as int] <= offsets[reloc.at as int]
    &&& reloc_offset(reloc, starts, offsets) <= u32::MAX
}

impl<'a, M: ModuleContext> CodeGenSession<'a, M> {
    /// A session for a module with `func_count` functions. Each has its label.
    pub fn new(func_count: u32, module_context: &'a M) -> (session: Self)
        ensures
            session.module_context == module_context,
            session.out.code@ == Seq::<Insn>::empty(),
            session.out.relocs@ == Seq::<Reloc>::empty(),
            session.out.labels == Labels::empty(),
            session.out.label_count == func_count,
            session.out.labels_are_sound(session.func_starts@),
            session.func_starts@ == Seq::new(
                func_count as nat,
                |i: int| (None::<usize>, (Label { id: i as usize })),
            ),
    {
        let mut out = Assembly::new();
        let mut func_starts: Vec<FuncStart> = Vec::new();
        let mut i: u32 = 0;
        while i < func_count
            invariant
                i <= func_count,
                out.code@ == Seq::<Insn>::empty(),
                out.relocs@ == Seq::<Reloc>::empty(),
                out.labels == Labels::empty(),
                out.label_count == i,
                func_starts@.len() == i,
                forall|j: int|
                    0 <= j < i ==> func_starts@[j] == (None::<usize>, (Label { id: j as usize })),
            decreases func_count - i,
        {
            let label = out.new_label();
            func_starts.push((None, label));
            i = i + 1;
        }
        proof {
            assert(func_starts@ =~= Seq::new(
                func_count as nat,
                |i: int| (None::<usize>, (Label { id: i as usize })),
            ));
        }
        CodeGenSession { out, module_context, func_starts }
    }

    /// Starts function number `func_idx`: its code is put at the end of all code so far. A function
    /// can be started only once, because its label can be defined only once.
    pub fn new_context<'this>(&'this mut self, func_idx: u32) -> (context: Context<'this, M>)
        requires
            func_idx < old(self).func_starts@.len(),
            old(self).func_starts@[func_idx as int].0 is None,
        ensures
            context@ == function_state(
                old(self).out,
                old(self).func_starts@[func_idx as int].1,
            ),
            context.current_function == func_idx,
            context.module_context == old(self).module_context,
            context.func_starts@ == old(self).func_starts@.update(
                func_idx as int,
                (
                    Some(old(self).out.code@.len() as usize),
                    old(self).func_starts@[func_idx as int].1,
                ),
            ),
            final(self).out == *final(context.out),
            final(self).func_starts@ == context.func_starts@,
            final(self).module_context == old(self).module_context,
            old(self).out.labels_are_sound(old(self).func_starts@) ==> context@.labels_are_sound(
                context.func_starts@,
            ),
    {
        proof {
            if self.out.labels_are_sound(self.func_starts@) {
                lemma_defined(
                    self.out.code@,
                    self.func_starts@[func_idx as int].1,
                    self.out.label_count,
                    self.out.labels,
                    self.func_starts@,
                    self.out.labels,
                    self.func_starts@.update(
                        func_idx as int,
                        (
                            Some(self.out.code@.len() as usize),
                            self.func_starts@[func_idx as int].1,
                        ),
                    ),
                );
            }
        }
        // At this point we know the exact start of this function. Save it and define its label
        // at this location.
        let label = self.func_starts[func_idx as usize].1;
        let start: usize = self.out.code.len();
        self.func_starts[func_idx as usize] = (Some(start), label);
        self.out.code.push(Insn::DefineLabel(label));
        Context {
            out: &mut self.out,
            module_context: self.module_context,
            current_function: func_idx,
            func_starts: &self.func_starts,
            block_state: BlockState::default(),
        }
    }

    /// Where the addresses have to be filled in, one for each entry of `out.relocs`, counted in
    /// bytes from the start of the function. `offsets` tells where each instruction starts.
    pub fn reloc_offsets(&self, offsets: &Vec<usize>) -> (res: Vec<u32>)
        requires
            forall|i: int|
                0 <= i < self.out.relocs@.len() ==> reloc_known(
                    #[trigger] self.out.relocs@[i],
                    self.func_starts@,
                    offsets@,
                ),
        ensures
            res@.len() == self.out.relocs@.len(),
            forall|i: int|
                0 <= i < res@.len() ==> #[trigger] res@[i] == reloc_offset(
                    self.out.relocs@[i],
                    self.func_starts@,
                    offsets@,
                ),
    {
        let mut res: Vec<u32> = Vec::new();
        let mut i: usize = 0;
        while i < self.out.relocs.len()
            invariant
                i <= self.out.relocs@.len(),
                res@.len() == i,
                forall|j: int|
                    0 <= j < self.out.relocs@.len() ==> reloc_known(
                        #[trigger] self.out.relocs@[j],
                        self.func_starts@,
                        offsets@,
                    ),
                forall|j: int|
                    0 <= j < i ==> #[trigger] res@[j] == reloc_offset(
                        self.out.relocs@[j],
                        self.func_starts@,
                        offsets@,
                    ),
            decreases self.out.relocs@.len() - i,
        {
            assert(reloc_known(self.out.relocs@[i as int], self.func_starts@, offsets@));
            let reloc = &self.out.relocs[i];
            let start: usize = self.func_starts[reloc.function as usize].0.unwrap();
            res.push((offsets[reloc.at] - offsets[start]) as u32 + 2);
            i = i + 1;
        }
        res
    }

    /// The code section that results. `assembled` is what the assembler made of all code, if it
    /// could, and `offsets` tells where each instruction starts in it.
    pub fn into_translated_code_section(
        self,
        assembled: Option<ExecutableBuffer>,
        offsets: &Vec<usize>,
    ) -> (res: Result<TranslatedCodeSection, Error>)
        requires
            assembled is Some ==> forall|i: int|
                0 <= i < self.func_starts@.len() ==> {
                    &&& (#[trigger] self.func_starts@[i]).0 is Some
                    &&& self.func_starts@[i].0->0 < offsets@.len()
                },
        ensures
            res is Ok <==> assembled is Some,
            match res {
                Ok(section) => {
                    &&& section.exec_buf == assembled->0
                    &&& section.func_starts@ == Seq::new(
                        self.func_starts@.len(),
                        |i: int| offsets@[self.func_starts@[i].0->0 as int],
                    )
                    &&& section.relocatable_accesses@ == Seq::<RelocateAccess>::empty()
                },
                Err(Error::Assembler(text)) => text@ == "assembler error"@,
            },
    {
        let exec_buf = match assembled {
            Some(exec_buf) => exec_buf,
            None => {
                return Err(Error::Assembler("assembler error".to_owned()));
            },
        };
        let mut func_starts: Vec<usize> = Vec::new();
        let mut i: usize = 0;
        while i < self.func_starts.len()
            invariant
                i <= self.func_starts@.len(),
                func_starts@.len() == i,
                forall|j: int|
                    0 <= j < self.func_starts@.len() ==> {
                        &&& (#[trigger] self.func_starts@[j]).0 is Some
                        &&& self.func_starts@[j].0->0 < offsets@.len()
                    },
                forall|j: int|
                    0 <= j < i ==> #[trigger] func_starts@[j]
                        == offsets@[self.func_starts@[j].0->0 as int],
            decreases self.func_starts@.len() - i,
        {
            assert(self.func_starts@[i as int].0 is Some);
            let start: usize = self.func_starts[i].0.unwrap();
            func_starts.push(offsets[start]);
            i = i + 1;
        }
        proof {
            assert(func_starts@ =~= Seq::new(
                self.func_starts@.len(),
                |i: int| offsets@[self.func_starts@[i].0->0 as int],
            ));
        }
        Ok(TranslatedCodeSection { exec_buf, func_starts, relocatable_accesses: Vec::new() })
    }
}

/// An address that is known only when the code is loaded.
#[derive(Debug)]
pub struct RelocateAddress {
    pub reg: Option<GPR>,
    pub imm: usize,
}

/// An access to such an address.
#[derive(Debug)]
pub struct RelocateAccess {
    pub position: usize,
    pub dst_reg: GPR,
    pub address: RelocateAddress,
}

/// A code section whose addresses have not been filled in.
#[derive(Debug)]
pub struct UninitializedCodeSection(pub TranslatedCodeSection);

/// The code of all functions of a module.
#[derive(Debug)]
pub struct TranslatedCodeSection {
    pub exec_buf: ExecutableBuffer,
    /// Where each function starts, counted in bytes from the start of the buffer.
    pub func_starts: Vec<usize>,
    pub relocatable_accesses: Vec<RelocateAccess>,
}

impl Default for TranslatedCodeSection {
    /// The code section of a module without functions.
    fn default() -> (section: Self)
        ensures
            section.wf(),
            executable_bytes(section.exec_buf) == Seq::<u8>::empty(),
            section.func_starts@ == Seq::<usize>::empty(),
            section.relocatable_accesses@ == Seq::<RelocateAccess>::empty(),
    {
        TranslatedCodeSection {
            exec_buf: empty_buffer(),
            func_starts: Vec::new(),
            relocatable_accesses: Vec::new(),
        }
    }
}

impl TranslatedCodeSection {
    /// Whether the code can be read.
    pub open spec fn wf(&self) -> bool {
        is_within_mapping(self.exec_buf)
    }

    /// Where function number `idx` starts, counted in bytes from the start of the buffer.
    pub fn func_start(&self, idx: usize) -> (offset: usize)
        requires
            idx < self.func_starts@.len(),
        ensures
            offset == self.func_starts@[idx as int],
    {
        self.func_starts[idx]
    }

    /// Where function number `idx` ends: where the next one starts, or at the end of the buffer.
    pub open spec fn func_end(&self, idx: int) -> usize {
        if idx + 1 < self.func_starts@.len() {
            self.func_starts@[idx + 1]
        } else {
            executable_bytes(self.exec_buf).len() as usize
        }
    }

    /// Where function number `idx` starts and ends.
    pub fn func_range(&self, idx: usize) -> (range: Range<usize>)
        requires
            self.wf(),
            idx < self.func_starts@.len(),
        ensures
            range.start == self.func_starts@[idx as int],
            range.end == self.func_end(idx as int),
    {
        let last: usize = self.func_starts.len() - 1;
        let end: usize = if idx < last {
            self.func_starts[idx + 1]
        } else {
            buffer_bytes(&self.exec_buf).len()
        };
        self.func_starts[idx]..end
    }

    /// Where all functions start and end.
    pub fn funcs(&self) -> (ranges: Vec<Range<usize>>)
        requires
            self.wf(),
        ensures
            ranges@.len() == self.func_starts@.len(),
            forall|i: int|
                0 <= i < ranges@.len() ==> {
                    &&& (#[trigger] ranges@[i]).start == self.func_starts@[i]
                    &&& ranges@[i].end == self.func_end(i)
                },
    {
        let mut ranges: Vec<Range<usize>> = Vec::new();
        let mut i: usize = 0;
        while i < self.func_starts.len()
            invariant
                self.wf(),
                i <= self.func_starts@.len(),
                ranges@.len() == i,
                forall|j: int|
                    0 <= j < i ==> {
                        &&& (#[trigger] ranges@[j]).start == self.func_starts@[j]
                        &&& ranges@[j].end == self.func_end(j)
                    },
            decreases self.func_starts@.len() - i,
        {
            ranges.push(self.func_range(i));
            i = i + 1;
        }
        ranges
    }

    /// The code.
    pub fn buffer(&self) -> (bytes: &[u8])
        requires
            self.wf(),
        ensures
            bytes@ == executable_bytes(self.exec_buf),
    {
        buffer_bytes(&self.exec_buf)
    }
}

/// Functions stand one after the other: each ends where the next one starts.
pub proof fn functions_are_adjacent(section: TranslatedCodeSection, idx: int)
    requires
        0 <= idx < section.func_starts@.len() - 1,
    ensures
        section.func_end(idx) == section.func_starts@[idx + 1],
{
}

} // verus!
