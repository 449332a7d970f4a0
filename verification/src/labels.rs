//! Which labels there are, and where they are defined.

use vstd::prelude::*;

use crate::assembly::{Assembly, Label, Labels};
use crate::branches::SharedLabel;
use crate::insn::Insn;
use crate::session::FuncStart;
use crate::state::State;

verus! {

/// The labels that `code` defines, in their order.
pub open spec fn definitions(code: Seq<Insn>) -> Seq<Label>
    decreases code.len(),
{
    if code.len() == 0 {
        Seq::empty()
    } else {
        let before = definitions(code.drop_last());
        match code.last() {
            Insn::DefineLabel(label) => before.push(label),
            _ => before,
        }
    }
}

/// Whether `code` defines only labels that were made, and each at most once. Labels are numbered
/// from zero, and `count` of them were made. The label of a function is defined when the function
/// is started, and a shared label in an epilogue; all of these are different.
pub open spec fn labels_are_sound(
    code: Seq<Insn>,
    count: usize,
    labels: Labels,
    starts: Seq<FuncStart>,
) -> bool {
    let defined = definitions(code);
    &&& defined.no_duplicates()
    &&& forall|label: Label| #[trigger] defined.contains(label) ==> label.id < count
    &&& forall|which: SharedLabel|
        (#[trigger] labels.get(which)) is Some ==> {
            &&& labels.get(which)->0.label.id < count
            &&& labels.get(which)->0.is_defined == defined.contains(labels.get(which)->0.label)
        }
    &&& forall|which: SharedLabel, other: SharedLabel|
        (#[trigger] labels.get(which)) is Some && (#[trigger] labels.get(other)) is Some && which
            != other ==> labels.get(which)->0.label != labels.get(other)->0.label
    &&& forall|i: int|
        0 <= i < starts.len() ==> {
            &&& (#[trigger] starts[i]).1.id < count
            &&& starts[i].0 is Some == defined.contains(starts[i].1)
        }
    &&& forall|i: int, j: int|
        0 <= i < j < starts.len() ==> (#[trigger] starts[i]).1 != (#[trigger] starts[j]).1
    &&& forall|i: int, which: SharedLabel|
        0 <= i < starts.len() && (#[trigger] labels.get(which)) is Some ==> (
        #[trigger] starts[i]).1 != labels.get(which)->0.label
}

/// Whether `label` is neither that of a function nor a shared one.
pub open spec fn is_plain(label: Label, labels: Labels, starts: Seq<FuncStart>) -> bool {
    &&& forall|which: SharedLabel|
        (#[trigger] labels.get(which)) is Some ==> labels.get(which)->0.label != label
    &&& forall|i: int| 0 <= i < starts.len() ==> (#[trigger] starts[i]).1 != label
}

impl State {
    pub open spec fn labels_are_sound(self, starts: Seq<FuncStart>) -> bool {
        labels_are_sound(self.code, self.label_count, self.labels, starts)
    }
}

impl Assembly {
    pub open spec fn labels_are_sound(&self, starts: Seq<FuncStart>) -> bool {
        labels_are_sound(self.code@, self.label_count, self.labels, starts)
    }
}

/// A label is among the definitions if there is an instruction that defines it.
pub proof fn lemma_definitions(code: Seq<Insn>, label: Label)
    ensures
        definitions(code).contains(label) == code.contains(Insn::DefineLabel(label)),
    decreases code.len(),
{
    let define = Insn::DefineLabel(label);
    if code.len() > 0 {
        let rest = code.drop_last();
        let before = definitions(rest);
        lemma_definitions(rest, label);
        if code.contains(define) && code.last() != define {
            let i = choose|i: int| 0 <= i < code.len() && code[i] == define;
            assert(rest[i] == define);
        }
        if rest.contains(define) {
            let i = choose|i: int| 0 <= i < rest.len() && rest[i] == define;
            assert(code[i] == define);
        }
        if code.last() == define {
            assert(code[code.len() - 1] == define);
            assert(definitions(code)[before.len() as int] == label);
        }
        if before.contains(label) {
            let i = choose|i: int| 0 <= i < before.len() && before[i] == label;
            assert(definitions(code)[i] == label);
        }
        if definitions(code).contains(label) && code.last() != define {
            let i = choose|i: int|
                0 <= i < definitions(code).len() && definitions(code)[i] == label;
            assert(before[i] == label);
        }
    }
}

/// Defining a label that was made, is not defined yet and is none of those that get defined
/// otherwise.
pub proof fn lemma_defined(
    code: Seq<Insn>,
    label: Label,
    count: usize,
    labels: Labels,
    starts: Seq<FuncStart>,
    now: Labels,
    now_starts: Seq<FuncStart>,
)
    requires
        labels_are_sound(code, count, labels, starts),
        label.id < count,
        !definitions(code).contains(label),
        forall|which: SharedLabel|
            #![trigger now.get(which)]
            #![trigger labels.get(which)]
            {
                &&& labels.get(which) is Some == now.get(which) is Some
                &&& labels.get(which) is Some ==> labels.get(which)->0.label == now.get(
                    which,
                )->0.label
                &&& labels.get(which) is Some ==> now.get(which)->0.is_defined == (labels.get(
                    which,
                )->0.is_defined || labels.get(which)->0.label == label)
            },
        now_starts.len() == starts.len(),
        forall|i: int|
            #![trigger now_starts[i]]
            #![trigger starts[i]]
            0 <= i < starts.len() ==> {
                &&& now_starts[i].1 == starts[i].1
                &&& now_starts[i].0 is Some == (starts[i].0 is Some || starts[i].1 == label)
            },
    ensures
        labels_are_sound(code.push(Insn::DefineLabel(label)), count, now, now_starts),
{
    let before = definitions(code);
    let after = definitions(code.push(Insn::DefineLabel(label)));
    assert(code.push(Insn::DefineLabel(label)).drop_last() =~= code);
    assert(after == before.push(label));
    assert forall|l: Label| #[trigger] after.contains(l) == (before.contains(l) || l == label) by {
        if before.contains(l) {
            let i = choose|i: int| 0 <= i < before.len() && before[i] == l;
            assert(after[i] == l);
        }
        assert(after[before.len() as int] == label);
        if after.contains(l) {
            let i = choose|i: int| 0 <= i < after.len() && after[i] == l;
            if i < before.len() {
                assert(before[i] == l);
            }
        }
    }
    assert forall|i: int, j: int| 0 <= i < after.len() && 0 <= j < after.len() && i != j implies
        after[i] != after[j] by {
        if i < before.len() {
            assert(before.contains(before[i]));
        }
        if j < before.len() {
            assert(before.contains(before[j]));
        }
    }
}

} // verus!
