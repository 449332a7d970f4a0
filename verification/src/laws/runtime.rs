//! The layout that the generated code relies on: of the VM context, of the registers that calls
//! keep, and of the code section.

use vstd::prelude::*;

use crate::assembly::Reloc;
use crate::module_context::{entry, ModuleContext, VmOffsets};
use crate::registers::{is_scratch, rq, RegId, GPR};
use crate::session::{executable_bytes, reloc_known, reloc_offset, FuncStart, TranslatedCodeSection};

verus! {

/// Entries stand one after the other, from the start on.
pub proof fn entries_are_adjacent(start: u32, size: u32, index: u32)
    requires
        index < u32::MAX,
        start + size * (index + 1) <= u32::MAX,
    ensures
        entry(start, size, 0) == start,
        entry(start, size, index) + size == entry(start, size, (index + 1) as u32),
{
    assert(size * (index + 1) == size * index + size) by (nonlinear_arith);
    assert(0 <= size * index) by (nonlinear_arith);
    assert(size * 0 == 0) by (nonlinear_arith);
}

/// Whether entry number `index` and the one after it are within the VM context.
pub open spec fn has_entry(start: u32, size: u32, index: u32) -> bool {
    index < u32::MAX && start + size * (index + 1) <= u32::MAX
}

/// Memories, globals and signatures stand one after the other, from the start of their kind on.
pub proof fn parts_are_adjacent(offsets: VmOffsets, index: u32)
    ensures
        has_entry(offsets.memories, offsets.definition_size, index) ==> {
            &&& offsets.spec_vmctx_vmmemory_definition_base(0) == offsets.memories
            &&& offsets.spec_vmctx_vmmemory_definition_base((index + 1) as u32)
                == offsets.spec_vmctx_vmmemory_definition_base(index) + offsets.definition_size
        },
        has_entry(offsets.globals, offsets.global_size, index) ==> {
            &&& offsets.spec_vmctx_vmglobal_definition(0) == offsets.globals
            &&& offsets.spec_vmctx_vmglobal_definition((index + 1) as u32)
                == offsets.spec_vmctx_vmglobal_definition(index) + offsets.global_size
        },
        has_entry(offsets.signatures, offsets.signature_size, index) ==> {
            &&& offsets.spec_vmctx_vmshared_signature_id(0) == offsets.signatures
            &&& offsets.spec_vmctx_vmshared_signature_id((index + 1) as u32)
                == offsets.spec_vmctx_vmshared_signature_id(index) + offsets.signature_size
        },
{
    if has_entry(offsets.memories, offsets.definition_size, index) {
        entries_are_adjacent(offsets.memories, offsets.definition_size, index);
    }
    if has_entry(offsets.globals, offsets.global_size, index) {
        entries_are_adjacent(offsets.globals, offsets.global_size, index);
    }
    if has_entry(offsets.signatures, offsets.signature_size, index) {
        entries_are_adjacent(offsets.signatures, offsets.signature_size, index);
    }
}

/// Tables stand one after the other, and the length of each stands within it.
pub proof fn tables_are_adjacent(offsets: VmOffsets, index: u32)
    requires
        has_entry(offsets.tables, offsets.definition_size, index),
        offsets.table_length < offsets.definition_size,
    ensures
        offsets.spec_vmctx_vmtable_definition_base(0) == offsets.tables,
        offsets.spec_vmctx_vmtable_definition_base((index + 1) as u32)
            == offsets.spec_vmctx_vmtable_definition_base(index) + offsets.definition_size,
        offsets.spec_vmctx_vmtable_definition_current_elements(index)
            == offsets.spec_vmctx_vmtable_definition_base(index) + offsets.table_length,
{
    entries_are_adjacent(offsets.tables, offsets.definition_size, index);
}

/// The imported globals have the first numbers, and no others. Those that the module defines are
/// counted from the first of them on.
pub proof fn globals_are_counted(offsets: VmOffsets, index: u32)
    ensures
        offsets.spec_defined_global_index(index) is None <==> index < offsets.imported_globals,
        offsets.spec_defined_global_index(offsets.imported_globals) == Some(0u32),
        offsets.imported_globals <= index < u32::MAX ==> offsets.spec_defined_global_index(
            (index + 1) as u32,
        )->0 == offsets.spec_defined_global_index(index)->0 + 1,
{
}

/// The registers that the allocator hands out are those that a callee may change, but for `rdi`,
/// where the VM context is.
pub proof fn scratch_registers(r: RegId)
    requires
        r < 16,
    ensures
        is_scratch(GPR::Rq(r)) <==> {
            &&& r != rq::RBX
            &&& r != rq::RBP
            &&& r != rq::RSP
            &&& r < rq::R12
            &&& r != rq::RDI
        },
        is_scratch(GPR::Rx(r)),
{
}

/// The place of an address, counted from the start of its function, is two bytes into the
/// instruction that loads it.
pub proof fn addresses_are_operands(reloc: Reloc, starts: Seq<FuncStart>, offsets: Seq<usize>)
    requires
        reloc_known(reloc, starts, offsets),
        offsets[reloc.at as int] - offsets[starts[reloc.function as int].0->0 as int]
            <= u32::MAX - 2,
    ensures
        offsets[starts[reloc.function as int].0->0 as int] + reloc_offset(reloc, starts, offsets)
            == offsets[reloc.at as int] + 2,
{
}

/// The last function ends where the code does.
pub proof fn last_function_ends(section: TranslatedCodeSection)
    requires
        section.func_starts@.len() > 0,
        executable_bytes(section.exec_buf).len() <= usize::MAX,
    ensures
        section.func_end(section.func_starts@.len() - 1) == executable_bytes(
            section.exec_buf,
        ).len(),
{
}

} // verus!
