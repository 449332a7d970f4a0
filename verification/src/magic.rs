//! The names by which generated code refers to the functions that work on the memory.

use vstd::prelude::*;

use cranelift_codegen::ir;

verus! {

#[verifier::external_type_specification]
#[verifier::external_body]
pub struct ExExternalName(ir::ExternalName);

/// The name that `ir::ExternalName::user` makes of two numbers.
pub uninterp spec fn user_external_name(namespace: u32, index: u32) -> ir::ExternalName;

/// `ir::ExternalName::user` puts its two arguments into a name and does nothing else. The name
/// keeps both, so that it is made of no other numbers.
pub assume_specification[ ir::ExternalName::user ](namespace: u32, index: u32) -> (name:
    ir::ExternalName)
    ensures
        name == user_external_name(namespace, index),
        forall|n: u32, i: u32|
            #[trigger] user_external_name(n, i) == name ==> n == namespace && i == index,
;

/// Whether `name` is made of these two numbers and of no others.
pub open spec fn is_user_name(name: ir::ExternalName, namespace: u32, index: u32) -> bool {
    &&& name == user_external_name(namespace, index)
    &&& forall|n: u32, i: u32|
        #[trigger] user_external_name(n, i) == name ==> n == namespace && i == index
}

/// Names that are made of different numbers are different.
pub proof fn user_names_differ(
    a: ir::ExternalName,
    a_namespace: u32,
    a_index: u32,
    b: ir::ExternalName,
    b_namespace: u32,
    b_index: u32,
)
    requires
        is_user_name(a, a_namespace, a_index),
        is_user_name(b, b_namespace, b_index),
        a_namespace != b_namespace || a_index != b_index,
    ensures
        a != b,
{
}

/// Compute an `ir::ExternalName` for the `memory.grow` libcall for
/// 32-bit locally-defined memories.
pub fn get_memory32_grow_name() -> (name: ir::ExternalName)
    ensures
        is_user_name(name, 1, 0),
{
    ir::ExternalName::user(1, 0)
}

/// Compute an `ir::ExternalName` for the `memory.grow` libcall for
/// 32-bit imported memories.
pub fn get_imported_memory32_grow_name() -> (name: ir::ExternalName)
    ensures
        is_user_name(name, 1, 1),
{
    ir::ExternalName::user(1, 1)
}

/// Compute an `ir::ExternalName` for the `memory.size` libcall for
/// 32-bit locally-defined memories.
pub fn get_memory32_size_name() -> (name: ir::ExternalName)
    ensures
        is_user_name(name, 1, 2),
{
    ir::ExternalName::user(1, 2)
}

/// Compute an `ir::ExternalName` for the `memory.size` libcall for
/// 32-bit imported memories.
pub fn get_imported_memory32_size_name() -> (name: ir::ExternalName)
    ensures
        is_user_name(name, 1, 3),
{
    ir::ExternalName::user(1, 3)
}

} // verus!
