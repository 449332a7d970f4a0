//! The accounting of registers: a register that holds a value is in use.
//!
//! Each value that is in a register, whether on the value stack or held by the step that is
//! being taken, stands for one use of that register. Registers that the allocator never hands
//! out have one use more, which nobody gives back.

use vstd::prelude::*;

use crate::location::ValueLocation;
use crate::registers::{
    is_scratch, lemma_lowest_free, rq, GPRType, RegState, GPR,
};
use crate::state::State;

verus! {

/// How many of `vals` are in `gpr`.
pub open spec fn uses(vals: Seq<ValueLocation>, gpr: GPR) -> nat
    decreases vals.len(),
{
    if vals.len() == 0 {
        0
    } else {
        uses(vals.drop_last(), gpr) + (if vals.last() == ValueLocation::Reg(gpr) {
            1nat
        } else {
            0nat
        })
    }
}

/// The use that a register has on no value's account.
pub open spec fn reserved(gpr: GPR) -> nat {
    if is_scratch(gpr) {
        0
    } else {
        1
    }
}

impl ValueLocation {
    /// Whether this is no register, or one that the machine has and that is not its stack
    /// pointer.
    pub open spec fn valid(self) -> bool {
        self is Reg ==> self->Reg_0.valid() && self->Reg_0 != GPR::Rq(rq::RSP)
    }
}

impl State {
    /// How many uses of `gpr` can be named: one for each value that it holds.
    pub open spec fn known_uses(self, held: Seq<ValueLocation>, gpr: GPR) -> nat {
        reserved(gpr) + uses(self.stack, gpr) + uses(held, gpr)
    }

    /// Whether every register is counted at least once for each value that it holds, on the
    /// stack or in `held`.
    pub open spec fn owns(self, held: Seq<ValueLocation>) -> bool {
        &&& self.regs.wf()
        &&& forall|g: GPR| g.valid() ==> #[trigger] self.regs.count(g) >= self.known_uses(held, g)
        &&& forall|i: int| 0 <= i < self.stack.len() ==> #[trigger] self.stack[i].valid()
        &&& forall|i: int| 0 <= i < held.len() ==> #[trigger] held[i].valid()
    }

    /// Whether every register that holds a value on the stack is counted for it.
    pub open spec fn accounted(self) -> bool {
        self.owns(Seq::empty())
    }
}

pub broadcast proof fn lemma_uses_push(vals: Seq<ValueLocation>, val: ValueLocation, gpr: GPR)
    ensures
        #[trigger] uses(vals.push(val), gpr) == uses(vals, gpr) + (if val == ValueLocation::Reg(
            gpr,
        ) {
            1nat
        } else {
            0nat
        }),
{
    assert(vals.push(val).drop_last() =~= vals);
}

/// Taking one value out of a row of values takes out the use that it stands for.
pub proof fn lemma_uses_remove(vals: Seq<ValueLocation>, i: int, gpr: GPR)
    requires
        0 <= i < vals.len(),
    ensures
        uses(vals, gpr) == uses(vals.remove(i), gpr) + (if vals[i] == ValueLocation::Reg(gpr) {
            1nat
        } else {
            0nat
        }),
    decreases vals.len(),
{
    let last = vals.len() - 1;
    if i == last {
        assert(vals.remove(i) =~= vals.drop_last());
    } else {
        lemma_uses_remove(vals.drop_last(), i, gpr);
        assert(vals.remove(i).drop_last() =~= vals.drop_last().remove(i));
        assert(vals.remove(i).last() == vals.last());
        assert(vals.drop_last()[i] == vals[i]);
    }
}

/// Putting another value in the place of one moves one use from register to register.
pub proof fn lemma_uses_update(vals: Seq<ValueLocation>, i: int, val: ValueLocation, gpr: GPR)
    requires
        0 <= i < vals.len(),
    ensures
        uses(vals.update(i, val), gpr) + (if vals[i] == ValueLocation::Reg(gpr) {
            1nat
        } else {
            0nat
        }) == uses(vals, gpr) + (if val == ValueLocation::Reg(gpr) {
            1nat
        } else {
            0nat
        }),
{
    lemma_uses_remove(vals, i, gpr);
    lemma_uses_remove(vals.update(i, val), i, gpr);
    assert(vals.update(i, val).remove(i) =~= vals.remove(i));
}

/// A value in a register is a use of it.
pub proof fn lemma_uses_at(vals: Seq<ValueLocation>, i: int, gpr: GPR)
    requires
        0 <= i < vals.len(),
        vals[i] == ValueLocation::Reg(gpr),
    ensures
        uses(vals, gpr) > 0,
{
    lemma_uses_remove(vals, i, gpr);
}

/// A register that is used is used by some value.
pub proof fn lemma_uses_some(vals: Seq<ValueLocation>, gpr: GPR) -> (i: int)
    requires
        uses(vals, gpr) > 0,
    ensures
        0 <= i < vals.len(),
        vals[i] == ValueLocation::Reg(gpr),
    decreases vals.len(),
{
    if vals.last() == ValueLocation::Reg(gpr) {
        vals.len() - 1
    } else {
        lemma_uses_some(vals.drop_last(), gpr)
    }
}

/// The counts after one use was counted.
pub broadcast proof fn lemma_count_mark_used(regs: RegState, gpr: GPR, other: GPR)
    requires
        regs.wf(),
        gpr.valid(),
        other.valid(),
        regs.count(gpr) < u8::MAX,
    ensures
        #[trigger] regs.mark_used(gpr).count(other) == (if other == gpr {
            regs.count(gpr) + 1
        } else {
            regs.count(other) as int
        }),
{
}

/// The counts after one use was given back.
pub broadcast proof fn lemma_count_release(regs: RegState, gpr: GPR, other: GPR)
    requires
        regs.wf(),
        gpr.valid(),
        other.valid(),
        regs.count(gpr) > 0,
    ensures
        #[trigger] regs.release(gpr).count(other) == (if other == gpr {
            regs.count(gpr) - 1
        } else {
            regs.count(other) as int
        }),
{
}

/// To count a use and to give it back leaves all counts as they were.
pub proof fn use_then_release(regs: RegState, gpr: GPR)
    requires
        regs.wf(),
        gpr.valid(),
        regs.count(gpr) < u8::MAX,
    ensures
        regs.mark_used(gpr).release(gpr) == regs,
{
    assert(regs.mark_used(gpr).release(gpr).rq =~= regs.rq);
    assert(regs.mark_used(gpr).release(gpr).rx =~= regs.rx);
}

/// To give a use back and to count it again leaves all counts as they were.
pub proof fn release_then_use(regs: RegState, gpr: GPR)
    requires
        regs.wf(),
        gpr.valid(),
        regs.count(gpr) > 0,
    ensures
        regs.release(gpr).mark_used(gpr) == regs,
{
    assert(regs.release(gpr).mark_used(gpr).rq =~= regs.rq);
    assert(regs.release(gpr).mark_used(gpr).rx =~= regs.rx);
}

/// A register that was taken is the free one with the lowest number, holds no value, and is in
/// use from then on.
pub proof fn taken_is_unused(s: State, held: Seq<ValueLocation>, ty: GPRType)
    requires
        s.owns(held),
        s.take(ty).0.ok,
    ensures
        s.take(ty).1.valid(),
        s.take(ty).1.type_() == ty,
        is_scratch(s.take(ty).1),
        s.regs.is_free(s.take(ty).1),
        uses(s.stack, s.take(ty).1) == 0,
        uses(held, s.take(ty).1) == 0,
        s.take(ty).0.regs.count(s.take(ty).1) == 1,
        s.take(ty).0.owns(held.push(ValueLocation::Reg(s.take(ty).1))),
{
    broadcast use {lemma_uses_push, lemma_count_mark_used};

    lemma_lowest_free(s.regs, ty);
    let g = s.take(ty).1;
    assert(s.regs.count(g) >= s.known_uses(held, g));
    let now = held.push(ValueLocation::Reg(g));
    let t = s.take(ty).0;
    assert forall|h: GPR| h.valid() implies #[trigger] t.regs.count(h) >= t.known_uses(now, h) by {
        assert(s.regs.count(h) >= s.known_uses(held, h));
    }
}

/// Popping a value puts it in hand.
pub proof fn lemma_owns_pop(s: State, held: Seq<ValueLocation>)
    requires
        s.owns(held),
        s.stack.len() > 0,
    ensures
        s.pop().0.owns(held.push(s.pop().1)),
{
    broadcast use lemma_uses_push;

    let t = s.pop().0;
    let now = held.push(s.pop().1);
    assert forall|h: GPR| h.valid() implies #[trigger] t.regs.count(h) >= t.known_uses(now, h) by {
        assert(s.regs.count(h) >= s.known_uses(held, h));
    }
}

/// Pushing a value that is in hand puts it on the stack.
pub proof fn lemma_owns_push(s: State, held: Seq<ValueLocation>, val: ValueLocation)
    requires
        s.owns(held.push(val)),
    ensures
        s.push(val).owns(held),
{
    broadcast use lemma_uses_push;

    let t = s.push(val);
    assert(held.push(val)[held.len() as int].valid());
    assert forall|h: GPR| h.valid() implies #[trigger] t.regs.count(h) >= t.known_uses(held, h) by {
        assert(s.regs.count(h) >= s.known_uses(held.push(val), h));
    }
    assert forall|i: int| 0 <= i < held.len() implies #[trigger] held[i].valid() by {
        assert(held.push(val)[i].valid());
    }
}

/// Giving back a value that is in hand.
pub proof fn lemma_owns_free(s: State, held: Seq<ValueLocation>, val: ValueLocation)
    requires
        s.owns(held.push(val)),
    ensures
        s.free_value(val).owns(held),
        s.ok ==> s.free_value(val).ok,
{
    broadcast use {lemma_uses_push, lemma_count_release};

    let t = s.free_value(val);
    assert(held.push(val)[held.len() as int].valid());
    if val is Reg {
        assert(s.regs.count(val->Reg_0) >= s.known_uses(held.push(val), val->Reg_0));
    }
    assert forall|h: GPR| h.valid() implies #[trigger] t.regs.count(h) >= t.known_uses(held, h) by {
        assert(s.regs.count(h) >= s.known_uses(held.push(val), h));
    }
    assert forall|i: int| 0 <= i < held.len() implies #[trigger] held[i].valid() by {
        assert(held.push(val)[i].valid());
    }
}

/// Counting a use of a register puts it in hand.
pub proof fn lemma_owns_mark_used(s: State, held: Seq<ValueLocation>, gpr: GPR)
    requires
        s.owns(held),
        s.mark_used(gpr).ok,
        gpr != GPR::Rq(rq::RSP),
    ensures
        s.mark_used(gpr).owns(held.push(ValueLocation::Reg(gpr))),
{
    broadcast use {lemma_uses_push, lemma_count_mark_used};

    let t = s.mark_used(gpr);
    let now = held.push(ValueLocation::Reg(gpr));
    assert forall|h: GPR| h.valid() implies #[trigger] t.regs.count(h) >= t.known_uses(now, h) by {
        assert(s.regs.count(h) >= s.known_uses(held, h));
    }
}

/// What is in hand may be forgotten: its uses are then counted for nobody.
pub proof fn lemma_owns_forget(s: State, held: Seq<ValueLocation>, val: ValueLocation)
    requires
        s.owns(held.push(val)),
    ensures
        s.owns(held),
{
    broadcast use lemma_uses_push;

    assert forall|h: GPR| h.valid() implies #[trigger] s.regs.count(h) >= s.known_uses(held, h) by {
        assert(s.regs.count(h) >= s.known_uses(held.push(val), h));
    }
    assert forall|i: int| 0 <= i < held.len() implies #[trigger] held[i].valid() by {
        assert(held.push(val)[i].valid());
    }
}

/// A value that is in no register may be taken in hand.
pub proof fn lemma_owns_hold(s: State, held: Seq<ValueLocation>, val: ValueLocation)
    requires
        s.owns(held),
        !(val is Reg),
    ensures
        s.owns(held.push(val)),
{
    broadcast use lemma_uses_push;

    let now = held.push(val);
    assert forall|h: GPR| h.valid() implies #[trigger] s.regs.count(h) >= s.known_uses(now, h) by {
        assert(s.regs.count(h) >= s.known_uses(held, h));
    }
}

/// The values in hand may change places, and some may be forgotten.
pub proof fn lemma_owns_reorder(s: State, was: Seq<ValueLocation>, now: Seq<ValueLocation>)
    requires
        s.owns(was),
        forall|g: GPR| #[trigger] uses(now, g) <= uses(was, g),
    ensures
        s.owns(now),
{
    assert forall|h: GPR| h.valid() implies #[trigger] s.regs.count(h) >= s.known_uses(now, h) by {
        assert(s.regs.count(h) >= s.known_uses(was, h));
        assert(uses(now, h) <= uses(was, h));
    }
    assert forall|i: int| 0 <= i < now.len() implies #[trigger] now[i].valid() by {
        if now[i] is Reg {
            let g = now[i]->Reg_0;
            lemma_uses_at(now, i, g);
            assert(uses(now, g) <= uses(was, g));
            let j = lemma_uses_some(was, g);
            assert(was[j].valid());
        }
    }
}

/// The last two values in hand may change places.
pub proof fn lemma_owns_swap(
    s: State,
    held: Seq<ValueLocation>,
    a: ValueLocation,
    b: ValueLocation,
)
    requires
        s.owns(held.push(a).push(b)),
    ensures
        s.owns(held.push(b).push(a)),
{
    broadcast use lemma_uses_push;

    let was = held.push(a).push(b);
    let now = held.push(b).push(a);
    assert forall|h: GPR| h.valid() implies #[trigger] s.regs.count(h) >= s.known_uses(now, h) by {
        assert(s.regs.count(h) >= s.known_uses(was, h));
    }
    assert forall|i: int| 0 <= i < now.len() implies #[trigger] now[i].valid() by {
        if i < held.len() {
            assert(was[i].valid());
        } else {
            assert(was[held.len() as int].valid());
            assert(was[held.len() as int + 1].valid());
        }
    }
}

/// The registers that the allocator hands out at the start are the scratch registers, each of
/// them free; no value is on the stack.
pub proof fn initial_registers(gpr: GPR)
    requires
        gpr.valid(),
    ensures
        RegState::initial().wf(),
        RegState::initial().is_free(gpr) == is_scratch(gpr),
        RegState::initial().count(gpr) == reserved(gpr),
{
}

} // verus!
