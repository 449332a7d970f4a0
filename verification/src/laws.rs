//! What holds of the generated code: each operation leaves on the stack what WebAssembly says it
//! does, and disturbs no other value.

pub mod arguments;
pub mod arith;
pub mod blocks;
pub mod branches;
pub mod calls;
pub mod compare;
pub mod division;
pub mod float;
pub mod indirect;
pub mod labels;
pub mod locations;
pub mod memory;
pub mod ordering;
pub mod passing;
pub mod printing;
pub mod rounding;
pub mod runtime;
pub mod select;
pub mod shift;
pub mod success;
pub mod targets;

use vstd::prelude::*;

use crate::insn::Width;
use crate::location::ValueLocation;
use crate::machine::{trunc, Machine};
use crate::ownership::{lemma_owns_push, lemma_uses_at, lemma_uses_push};
use crate::registers::{is_scratch, GPR};
use crate::simulation::{grown, ran};
use crate::state::State;

verus! {

/// No values in hand.
pub open spec fn none() -> Seq<ValueLocation> {
    Seq::empty()
}

/// One value in hand.
pub open spec fn one(a: ValueLocation) -> Seq<ValueLocation> {
    none().push(a)
}

/// Two values in hand.
pub open spec fn two(a: ValueLocation, b: ValueLocation) -> Seq<ValueLocation> {
    none().push(a).push(b)
}

impl State {
    /// The value on the stack at `i`.
    pub open spec fn value_at(self, m: Machine, i: int) -> u64 {
        self.value_of(m, self.stack[i])
    }

    /// The value `i` places below the top of the stack.
    pub open spec fn top(self, m: Machine, i: int) -> u64 {
        self.value_at(m, self.stack.len() - 1 - i)
    }

    /// Whether the code of the step from `self` to `t`, run from `m`, runs to its end and leaves
    /// the first `count` values, the memory, the stack pointer and the registers that are not
    /// for general use as they were.
    pub open spec fn preserves(self, t: State, m: Machine, count: int) -> bool {
        let n = ran(m, self.code, t.code);
        &&& grown(self.code, t.code)
        &&& n.wf()
        &&& n.next is Next
        &&& n.mem == m.mem
        &&& n.rsp == m.rsp
        &&& t.depth == self.depth
        &&& t.accounted()
        &&& t.stack.len() >= count
        &&& forall|i: int|
            0 <= i < count ==> #[trigger] t.stack[i] == self.stack[i] && t.value_at(n, i)
                == self.value_at(m, i)
        &&& forall|g: GPR|
            g.valid() && !is_scratch(g) ==> #[trigger] n.gpr(g) == m.gpr(g)
    }

    /// Whether the code of the step from `self` to `t`, run from `m`, replaces the topmost
    /// `count` values by one whose lowest bits are those of `result`, and leaves all else as it
    /// was.
    pub open spec fn computes(
        self,
        t: State,
        m: Machine,
        count: int,
        w: Width,
        result: u64,
    ) -> bool {
        &&& t.stack.len() == self.stack.len() - count + 1
        &&& self.preserves(t, m, self.stack.len() - count)
        &&& trunc(w, t.top(ran(m, self.code, t.code), 0)) == trunc(w, result)
    }

    /// Whether the generator can take a step from here with the machine in the state `m`.
    pub open spec fn at(self, m: Machine) -> bool {
        &&& self.ok
        &&& self.accounted()
        &&& m.wf()
        &&& m.next is Next
    }
}

/// The last step of most operations: the result, which is in hand, is pushed.
pub proof fn lemma_push_result(s: State, u: State, m: Machine, count: int, val: ValueLocation)
    requires
        s.owns(none()),
        0 <= count <= s.stack.len(),
        u.reached(m, s.code),
        u.stack == s.stack.take(s.stack.len() - count),
        u.depth == s.depth,
        u.owns(one(val)),
        u.same_values(none(), m, ran(m, s.code, u.code)),
    ensures
        s.preserves(u.push(val), m, s.stack.len() - count),
{
    broadcast use lemma_uses_push;

    let t = u.push(val);
    let n = ran(m, s.code, t.code);
    lemma_owns_push(u, none(), val);
    assert forall|i: int| 0 <= i < s.stack.len() - count implies #[trigger] t.stack[i] == s.stack[i]
        && t.value_at(n, i) == s.value_at(m, i) by {
        lemma_same_values_of(s, u, m, n, i);
    }
    assert forall|g: GPR| g.valid() && !is_scratch(g) implies #[trigger] n.gpr(g) == m.gpr(g) by {
        assert(u.known_uses(none(), g) > 0);
    }
}

/// An operation that wrote to no register but `gpr`, which was unused and has the result.
pub proof fn lemma_result_in(s: State, u: State, m: Machine, count: int, gpr: GPR)
    requires
        s.owns(none()),
        0 <= count <= s.stack.len(),
        u.reached(m, s.code),
        u.stack == s.stack.take(s.stack.len() - count),
        u.depth == s.depth,
        u.owns(one(ValueLocation::Reg(gpr))),
        u.known_uses(none(), gpr) == 0,
        ({
            let n = ran(m, s.code, u.code);
            &&& n.mem == m.mem
            &&& n.rsp == m.rsp
            &&& forall|g: GPR| g.valid() && g != gpr ==> #[trigger] n.gpr(g) == m.gpr(g)
        }),
    ensures
        s.preserves(u.push(ValueLocation::Reg(gpr)), m, s.stack.len() - count),
{
    lemma_push_result(s, u, m, count, ValueLocation::Reg(gpr));
}

pub proof fn lemma_same_values_of(s: State, u: State, m: Machine, n: Machine, i: int)
    requires
        0 <= i < u.stack.len() <= s.stack.len(),
        u.stack[i] == s.stack[i],
        u.stack[i].valid(),
        u.depth == s.depth,
        u.same_values(none(), m, n),
    ensures
        u.value_at(n, i) == s.value_at(m, i),
{
    if u.stack[i] is Reg {
        let g = u.stack[i]->Reg_0;
        lemma_uses_at(u.stack, i, g);
        assert(u.known_uses(none(), g) > 0);
        assert(n.gpr(g) == m.gpr(g));
    }
}

} // verus!
