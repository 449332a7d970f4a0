//! What the backend has to know of the module whose functions it compiles.

use vstd::prelude::*;

verus! {

/// Where the runtime keeps the parts of a module: all offsets are counted in bytes from the start
/// of the VM context, unless they say otherwise.
pub trait ModuleContext: Sized {
    /// The offset of the base address of memory number `index`.
    spec fn spec_vmctx_vmmemory_definition_base(&self, index: u32) -> u32;

    fn vmctx_vmmemory_definition_base(&self, index: u32) -> (offset: u32)
        ensures
            offset == self.spec_vmctx_vmmemory_definition_base(index),
    ;

    /// The number of a global among those that the module defines itself, or `None` if the
    /// global is imported.
    spec fn spec_defined_global_index(&self, index: u32) -> Option<u32>;

    fn defined_global_index(&self, index: u32) -> (defined: Option<u32>)
        ensures
            defined == self.spec_defined_global_index(index),
    ;

    /// The offset of the global with the given number among those that the module defines.
    spec fn spec_vmctx_vmglobal_definition(&self, index: u32) -> u32;

    fn vmctx_vmglobal_definition(&self, index: u32) -> (offset: u32)
        ensures
            offset == self.spec_vmctx_vmglobal_definition(index),
    ;

    /// The offset of the length of table number `index`.
    spec fn spec_vmctx_vmtable_definition_current_elements(&self, index: u32) -> u32;

    fn vmctx_vmtable_definition_current_elements(&self, index: u32) -> (offset: u32)
        ensures
            offset == self.spec_vmctx_vmtable_definition_current_elements(index),
    ;

    /// The offset of the base address of table number `index`.
    spec fn spec_vmctx_vmtable_definition_base(&self, index: u32) -> u32;

    fn vmctx_vmtable_definition_base(&self, index: u32) -> (offset: u32)
        ensures
            offset == self.spec_vmctx_vmtable_definition_base(index),
    ;

    /// The offset of the identifier of signature number `index`.
    spec fn spec_vmctx_vmshared_signature_id(&self, index: u32) -> u32;

    fn vmctx_vmshared_signature_id(&self, index: u32) -> (offset: u32)
        ensures
            offset == self.spec_vmctx_vmshared_signature_id(index),
    ;

    /// The size of a table element in bytes.
    spec fn spec_size_of_vmcaller_checked_anyfunc(&self) -> u8;

    fn size_of_vmcaller_checked_anyfunc(&self) -> (size: u8)
        ensures
            size == self.spec_size_of_vmcaller_checked_anyfunc(),
    ;

    /// The offset of the signature within a table element.
    spec fn spec_vmcaller_checked_anyfunc_type_index(&self) -> u8;

    fn vmcaller_checked_anyfunc_type_index(&self) -> (offset: u8)
        ensures
            offset == self.spec_vmcaller_checked_anyfunc_type_index(),
    ;

    /// The offset of the function's address within a table element.
    spec fn spec_vmcaller_checked_anyfunc_func_ptr(&self) -> u8;

    fn vmcaller_checked_anyfunc_func_ptr(&self) -> (offset: u8)
        ensures
            offset == self.spec_vmcaller_checked_anyfunc_func_ptr(),
    ;
}

/// A runtime that keeps the parts of each kind one after another, from a fixed offset on.
#[derive(Debug, Copy, Clone)]
pub struct VmOffsets {
    /// The offset of the first memory, which is its base address.
    pub memories: u32,
    /// The offset of the first table, which starts with its base address.
    pub tables: u32,
    /// The offset of a table's length from the start of the table.
    pub table_length: u32,
    /// The size of a memory or a table.
    pub definition_size: u32,
    /// The offset of the first global that the module defines.
    pub globals: u32,
    pub global_size: u32,
    /// How many globals the module imports. They have the first numbers.
    pub imported_globals: u32,
    /// The offset of the first signature.
    pub signatures: u32,
    pub signature_size: u32,
    pub element_size: u8,
    pub element_type_index: u8,
    pub element_func_ptr: u8,
}

/// The offset of entry number `index` of an array that starts at `start`.
pub open spec fn spec_entry(start: u32, size: u32, index: u32) -> u32 {
    start.wrapping_add(size.wrapping_mul(index))
}

#[verifier::when_used_as_spec(spec_entry)]
pub fn entry(start: u32, size: u32, index: u32) -> (offset: u32)
    ensures
        offset == spec_entry(start, size, index),
{
    start.wrapping_add(size.wrapping_mul(index))
}

impl ModuleContext for VmOffsets {
    open spec fn spec_vmctx_vmmemory_definition_base(&self, index: u32) -> u32 {
        entry(self.memories, self.definition_size, index)
    }

    fn vmctx_vmmemory_definition_base(&self, index: u32) -> (offset: u32) {
        entry(self.memories, self.definition_size, index)
    }

    open spec fn spec_defined_global_index(&self, index: u32) -> Option<u32> {
        if index >= self.imported_globals {
            Some((index - self.imported_globals) as u32)
        } else {
            None
        }
    }

    fn defined_global_index(&self, index: u32) -> (defined: Option<u32>) {
        if index >= self.imported_globals {
            Some(index - self.imported_globals)
        } else {
            None
        }
    }

    open spec fn spec_vmctx_vmglobal_definition(&self, index: u32) -> u32 {
        entry(self.globals, self.global_size, index)
    }

    fn vmctx_vmglobal_definition(&self, index: u32) -> (offset: u32) {
        entry(self.globals, self.global_size, index)
    }

    open spec fn spec_vmctx_vmtable_definition_current_elements(&self, index: u32) -> u32 {
        entry(self.tables, self.definition_size, index).wrapping_add(self.table_length)
    }

    fn vmctx_vmtable_definition_current_elements(&self, index: u32) -> (offset: u32) {
        entry(self.tables, self.definition_size, index).wrapping_add(self.table_length)
    }

    open spec fn spec_vmctx_vmtable_definition_base(&self, index: u32) -> u32 {
        entry(self.tables, self.definition_size, index)
    }

    fn vmctx_vmtable_definition_base(&self, index: u32) -> (offset: u32) {
        entry(self.tables, self.definition_size, index)
    }

    open spec fn spec_vmctx_vmshared_signature_id(&self, index: u32) -> u32 {
        entry(self.signatures, self.signature_size, index)
    }

    fn vmctx_vmshared_signature_id(&self, index: u32) -> (offset: u32) {
        entry(self.signatures, self.signature_size, index)
    }

    open spec fn spec_size_of_vmcaller_checked_anyfunc(&self) -> u8 {
        self.element_size
    }

    fn size_of_vmcaller_checked_anyfunc(&self) -> (size: u8) {
        self.element_size
    }

    open spec fn spec_vmcaller_checked_anyfunc_type_index(&self) -> u8 {
        self.element_type_index
    }

    fn vmcaller_checked_anyfunc_type_index(&self) -> (offset: u8) {
        self.element_type_index
    }

    open spec fn spec_vmcaller_checked_anyfunc_func_ptr(&self) -> u8 {
        self.element_func_ptr
    }

    fn vmcaller_checked_anyfunc_func_ptr(&self) -> (offset: u8) {
        self.element_func_ptr
    }
}

} // verus!
