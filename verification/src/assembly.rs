//! The code that has been generated so far.

use vstd::prelude::*;

use cranelift_codegen::ir;

use crate::insn::Insn;

verus! {

/// Label in code.
#[derive(Debug, Copy, Clone, PartialEq, Eq, Structural)]
pub struct Label {
    pub id: usize,
}

/// A label that is created when it is first needed and defined in the epilogue.
#[derive(Debug, Copy, Clone, PartialEq, Eq, Structural)]
pub struct PendingLabel {
    pub label: Label,
    pub is_defined: bool,
}

impl PendingLabel {
    pub fn undefined(label: Label) -> (pending: Self)
        ensures
            pending == (PendingLabel { label, is_defined: false }),
    {
        PendingLabel { label, is_defined: false }
    }

    pub fn defined(label: Label) -> (pending: Self)
        ensures
            pending == (PendingLabel { label, is_defined: true }),
    {
        PendingLabel { label, is_defined: true }
    }

    pub open spec fn spec_as_undefined(&self) -> Option<Label> {
        if !self.is_defined {
            Some(self.label)
        } else {
            None
        }
    }

    /// The label, if it has not been defined yet.
    #[verifier::when_used_as_spec(spec_as_undefined)]
    pub fn as_undefined(&self) -> (label: Option<Label>)
        ensures
            label == self.spec_as_undefined(),
    {
        if !self.is_defined {
            Some(self.label)
        } else {
            None
        }
    }
}

impl From<Label> for PendingLabel {
    fn from(label: Label) -> (pending: Self) {
        PendingLabel { label, is_defined: false }
    }
}

impl vstd::std_specs::convert::FromSpecImpl<Label> for PendingLabel {
    open spec fn obeys_from_spec() -> bool {
        true
    }

    open spec fn from_spec(label: Label) -> PendingLabel {
        PendingLabel { label, is_defined: false }
    }
}

/// The labels of what all operations share: the trap, the return and the constants by which the
/// sign of a floating-point number is changed.
#[derive(Debug, Copy, Clone, PartialEq, Eq, Structural)]
pub struct Labels {
    pub trap: Option<PendingLabel>,
    pub ret: Option<PendingLabel>,
    pub neg_const_f32: Option<PendingLabel>,
    pub neg_const_f64: Option<PendingLabel>,
    pub abs_const_f32: Option<PendingLabel>,
    pub abs_const_f64: Option<PendingLabel>,
}

impl Labels {
    /// No label has been needed yet.
    pub open spec fn empty() -> Labels {
        Labels {
            trap: None,
            ret: None,
            neg_const_f32: None,
            neg_const_f64: None,
            abs_const_f32: None,
            abs_const_f64: None,
        }
    }
}

impl Default for Labels {
    fn default() -> (labels: Self)
        ensures
            labels == Labels::empty(),
    {
        Labels {
            trap: None,
            ret: None,
            neg_const_f32: None,
            neg_const_f64: None,
            abs_const_f32: None,
            abs_const_f64: None,
        }
    }
}

/// A place in the code that has to be filled with the address of a named function.
pub struct Reloc {
    /// The index of the instruction whose immediate operand is that address.
    pub at: usize,
    /// The function that this instruction belongs to.
    pub function: u32,
    pub name: ir::ExternalName,
}

/// The code that has been generated so far.
pub struct Assembly {
    pub code: Vec<Insn>,
    pub relocs: Vec<Reloc>,
    /// How many labels have been created. They are numbered from zero.
    pub label_count: usize,
    pub labels: Labels,
}

impl Assembly {
    /// No code.
    pub fn new() -> (out: Self)
        ensures
            out.code@ == Seq::<Insn>::empty(),
            out.relocs@ == Seq::<Reloc>::empty(),
            out.label_count == 0,
            out.labels == Labels::empty(),
    {
        Assembly {
            code: Vec::new(),
            relocs: Vec::new(),
            label_count: 0,
            labels: Labels::default(),
        }
    }

    /// Create a new undefined label, different from all earlier ones.
    pub fn new_label(&mut self) -> (label: Label)
        requires
            old(self).label_count < usize::MAX,
        ensures
            label.id == old(self).label_count,
            final(self).label_count == old(self).label_count + 1,
            final(self).code@ == old(self).code@,
            final(self).relocs@ == old(self).relocs@,
            final(self).labels == old(self).labels,
    {
        let id: usize = self.label_count;
        self.label_count = id + 1;
        Label { id }
    }
}

} // verus!
