//! How the arguments of a call get to their places.

use vstd::prelude::*;

use crate::blocks::as_values;
use crate::calls::{
    lemma_make_moves_ok, lemma_pass_all_outgoing_ok, lemma_try_moves_ok, stack_space, Move,
};
use crate::insn::Insn;
use crate::laws::arith::lemma_owns_code;
use crate::laws::blocks::{lemma_load_above, lemma_push_physical, lemma_uses_add, slot_limit};
use crate::laws::locations::place_is_sound;
use crate::laws::passing::lemma_slot;
use crate::location::{CCLoc, ValueLocation};
use crate::machine::{load, Machine};
use crate::ownership::{
    lemma_owns_free, lemma_owns_hold, lemma_owns_mark_used, lemma_owns_pop, lemma_owns_reorder,
    lemma_uses_at, lemma_uses_push, lemma_uses_remove, reserved, uses,
};
use crate::registers::{rq, GPR};
use crate::simulation::{copy_to_register, ran};
use crate::state::State;

verus! {

/// How many of the first `n` places are on the machine's stack.
pub open spec fn stacked(locs: Seq<CCLoc>, n: int) -> int
    decreases n,
{
    if n <= 0 {
        0
    } else {
        stacked(locs, n - 1) + (if locs[n - 1] is Stack {
            1int
        } else {
            0int
        })
    }
}

/// Whether `locs` are places of parameters as the calling convention has them: each is different
/// from all others, and slots of the machine's stack are numbered from zero on.
pub open spec fn parameter_places(locs: Seq<CCLoc>) -> bool {
    &&& forall|j: int| 0 <= j < locs.len() ==> place_is_sound(#[trigger] locs[j])
    &&& forall|i: int, j: int|
        0 <= i < j < locs.len() ==> #[trigger] locs[i] != #[trigger] locs[j]
    &&& forall|j: int|
        0 <= j < locs.len() && #[trigger] locs[j] is Stack ==> locs[j]->Stack_0 == stacked(locs, j)
}

/// A call whose arguments are passed: the state of the generator and of the machine when all
/// other values are saved, the places of the parameters, and what is in hand besides.
pub struct Passing {
    pub s: State,
    pub start: Machine,
    pub locs: Seq<CCLoc>,
    pub held: Seq<ValueLocation>,
}

impl Passing {
    /// How many values stay on the stack.
    pub open spec fn base(self) -> int {
        self.s.stack.len() - self.locs.len()
    }

    /// The value of argument number `j`.
    pub open spec fn val(self, j: int) -> u64 {
        self.s.value_at(self.start, self.base() + j)
    }

    /// How many parameters are on the machine's stack.
    pub open spec fn slots(self) -> int {
        stacked(self.locs, self.locs.len() as int)
    }

    /// The address of the first parameter on the machine's stack.
    pub open spec fn low(self) -> int {
        self.start.rsp - 8 * self.slots()
    }

    /// Whether the slot of `val`, if it is in one, can be addressed until the call.
    pub open spec fn reaches(self, val: ValueLocation) -> bool {
        val is Stack ==> {
            let words = self.s.depth + val->Stack_0;
            0 <= words && words + self.slots() < slot_limit()
        }
    }

    pub open spec fn wf(self) -> bool {
        &&& parameter_places(self.locs)
        &&& self.base() >= 0
        &&& self.s.framed(self.slots())
    }

    /// Whether a move that is put off goes to the place of a parameter from number `k` on.
    pub open spec fn is_sound(self, mv: Move, k: int) -> bool {
        &&& mv.1 is Reg
        &&& exists|j: int|
            k <= j < self.locs.len() && #[trigger] self.locs[j] == CCLoc::Reg(mv.1->Reg_0)
        &&& self.reaches(mv.0)
    }

    /// What is in hand while `moves` are to be made and the registers `done` have their values.
    pub open spec fn in_hand(self, moves: Seq<Move>, done: Seq<ValueLocation>) -> Seq<
        ValueLocation,
    > {
        self.held + (sources(moves) + done)
    }
}

/// Where the values are that are still to be moved.
pub open spec fn sources(moves: Seq<Move>) -> Seq<ValueLocation> {
    Seq::new(moves.len(), |i: int| moves[i].0)
}

/// Whether one of `moves` goes to `gpr`.
pub open spec fn is_pending(moves: Seq<Move>, gpr: GPR) -> bool {
    exists|i: int| 0 <= i < moves.len() && (#[trigger] moves[i]).1 == ValueLocation::Reg(gpr)
}

impl State {
    /// Whether the machines `m` and `n` agree on the memory, the stack pointer and every register
    /// that is not free.
    pub open spec fn same_in_use(self, m: Machine, n: Machine) -> bool {
        &&& n.mem == m.mem
        &&& n.rsp == m.rsp
        &&& forall|g: GPR|
            g.valid() && !self.regs.is_free(g) ==> #[trigger] n.gpr(g) == m.gpr(g)
    }

    /// Whether the place of parameter number `j` has its value, or has it once the moves are
    /// made. A register that has it is among `done`.
    pub open spec fn has_or_gets(
        self,
        n: Machine,
        moves: Seq<Move>,
        done: Seq<ValueLocation>,
        p: Passing,
        j: int,
    ) -> bool {
        match p.locs[j] {
            CCLoc::Stack(o) => load(n.mem, p.low() + 8 * o) == p.val(j),
            CCLoc::Reg(r) => {
                &&& forall|i: int|
                    0 <= i < moves.len() && (#[trigger] moves[i]).1 == ValueLocation::Reg(r)
                        ==> self.value_of(n, moves[i].0) == p.val(j)
                &&& !is_pending(moves, r) ==> uses(done, r) > 0 && n.gpr(r) == p.val(j)
            },
        }
    }

    /// Whether the values on the stack, the memory from the top of the machine's stack on, what
    /// is in hand besides and the registers that are not for general use are as they were.
    pub open spec fn undisturbed(self, n: Machine, p: Passing) -> bool {
        &&& forall|i: int|
            0 <= i < self.stack.len() ==> #[trigger] self.value_at(n, i) == p.s.value_at(p.start, i)
        &&& forall|a: int| a >= p.start.rsp ==> #[trigger] (n.mem)(a) == (p.start.mem)(a)
        &&& forall|g: GPR|
            g.valid() && reserved(g) + uses(p.held, g) > 0 ==> #[trigger] n.gpr(g) == p.start.gpr(g)
    }

    /// Whether the parameters from number `k` on have their values or get them by `moves`, and
    /// the arguments below are still on the stack.
    #[verifier::opaque]
    pub open spec fn placing(
        self,
        p: Passing,
        m: Machine,
        from: Seq<Insn>,
        moves: Seq<Move>,
        done: Seq<ValueLocation>,
        k: int,
    ) -> bool {
        let n = ran(m, from, self.code);
        &&& self.reached(m, from)
        &&& self.owns(p.in_hand(moves, done))
        &&& self.stack == p.s.stack.take(p.base() + k)
        &&& self.depth == p.s.depth + p.slots() - stacked(p.locs, k)
        &&& self.frame(n) == p.s.frame(p.start)
        &&& forall|i: int| 0 <= i < moves.len() ==> p.is_sound(#[trigger] moves[i], k)
        &&& forall|j: int|
            k <= j < p.locs.len() ==> #[trigger] self.has_or_gets(n, moves, done, p, j)
        &&& self.undisturbed(n, p)
    }
}

pub proof fn lemma_stacked(locs: Seq<CCLoc>, i: int, j: int)
    requires
        0 <= i <= j,
    ensures
        0 <= stacked(locs, i) <= stacked(locs, j) <= j,
        i < j && locs[i] is Stack ==> stacked(locs, i) < stacked(locs, j),
    decreases j,
{
    if i < j {
        lemma_stacked(locs, i, j - 1);
    } else if j > 0 {
        lemma_stacked(locs, i - 1, j - 1);
    }
}

/// The arguments take as many words as there are slots among their places.
pub proof fn lemma_stack_space(locs: Seq<CCLoc>, n: int)
    requires
        parameter_places(locs),
        0 <= n <= locs.len(),
    ensures
        stack_space(locs.take(n)) == stacked(locs, n),
    decreases n,
{
    if n > 0 {
        lemma_stack_space(locs, n - 1);
        lemma_stacked(locs, 0, n - 1);
        assert(locs.take(n).drop_last() =~= locs.take(n - 1));
        assert(locs.take(n).last() == locs[n - 1]);
        assert(place_is_sound(locs[n - 1]));
    }
}

/// How often a register is in hand.
proof fn lemma_hand_uses(p: Passing, moves: Seq<Move>, done: Seq<ValueLocation>, gpr: GPR)
    ensures
        uses(p.in_hand(moves, done), gpr) == uses(p.held, gpr) + uses(sources(moves), gpr) + uses(
            done,
            gpr,
        ),
{
    lemma_uses_add(p.held, sources(moves) + done, gpr);
    lemma_uses_add(sources(moves), done, gpr);
}

/// A value in hand, or on the stack, stays as it is where all that is in use does.
proof fn lemma_value_kept(
    s: State,
    m: Machine,
    n: Machine,
    hand: Seq<ValueLocation>,
    val: ValueLocation,
)
    requires
        s.owns(hand),
        val is Reg ==> s.known_uses(hand, val->Reg_0) > 0 && val->Reg_0.valid(),
        s.same_in_use(m, n),
    ensures
        s.value_of(n, val) == s.value_of(m, val),
{
    if val is Reg {
        let g = val->Reg_0;
        assert(s.regs.count(g) >= s.known_uses(hand, g));
        assert(n.gpr(g) == m.gpr(g));
    }
}

/// A source of a move is in hand.
proof fn lemma_source_in_hand(p: Passing, moves: Seq<Move>, done: Seq<ValueLocation>, i: int)
    requires
        0 <= i < moves.len(),
    ensures
        p.in_hand(moves, done)[p.held.len() + i] == moves[i].0,
        moves[i].0 is Reg ==> uses(p.in_hand(moves, done), moves[i].0->Reg_0) > 0,
{
    assert(p.in_hand(moves, done)[p.held.len() + i] == sources(moves)[i]);
    if moves[i].0 is Reg {
        lemma_uses_at(p.in_hand(moves, done), p.held.len() + i, moves[i].0->Reg_0);
    }
}

/// All else stays undisturbed where all that is in use does.
proof fn lemma_still_undisturbed(
    s: State,
    t: State,
    m: Machine,
    n: Machine,
    moves: Seq<Move>,
    done: Seq<ValueLocation>,
    p: Passing,
)
    requires
        s.owns(p.in_hand(moves, done)),
        s.same_in_use(m, n),
        s.undisturbed(m, p),
        t.stack == s.stack,
        t.depth == s.depth,
    ensures
        t.undisturbed(n, p),
{
    let hand = p.in_hand(moves, done);
    assert forall|i: int| 0 <= i < t.stack.len() implies #[trigger] t.value_at(n, i)
        == p.s.value_at(p.start, i) by {
        assert(s.stack[i].valid());
        assert(s.value_at(m, i) == p.s.value_at(p.start, i));
        if s.stack[i] is Reg {
            lemma_uses_at(s.stack, i, s.stack[i]->Reg_0);
        }
        lemma_value_kept(s, m, n, hand, s.stack[i]);
    }
    assert forall|g: GPR| g.valid() && reserved(g) + uses(p.held, g) > 0 implies #[trigger] n.gpr(g)
        == p.start.gpr(g) by {
        lemma_hand_uses(p, moves, done, g);
        assert(s.regs.count(g) >= s.known_uses(hand, g));
        assert(m.gpr(g) == p.start.gpr(g));
        assert(n.gpr(g) == m.gpr(g));
    }
}

/// A place keeps its value, or still gets it, where all that is in use stays as it is.
proof fn lemma_place_kept(
    s: State,
    t: State,
    m: Machine,
    n: Machine,
    moves: Seq<Move>,
    done: Seq<ValueLocation>,
    p: Passing,
    j: int,
)
    requires
        parameter_places(p.locs),
        0 <= j < p.locs.len(),
        s.owns(p.in_hand(moves, done)),
        s.same_in_use(m, n),
        t.depth == s.depth,
        s.has_or_gets(m, moves, done, p, j),
    ensures
        t.has_or_gets(n, moves, done, p, j),
{
    let hand = p.in_hand(moves, done);
    assert(place_is_sound(p.locs[j]));
    if let CCLoc::Reg(r) = p.locs[j] {
        assert forall|i: int|
            0 <= i < moves.len() && (#[trigger] moves[i]).1 == ValueLocation::Reg(r)
            implies t.value_of(n, moves[i].0) == p.val(j) by {
            lemma_source_in_hand(p, moves, done, i);
            assert(hand[p.held.len() + i].valid());
            lemma_value_kept(s, m, n, hand, moves[i].0);
        }
        if !is_pending(moves, r) {
            lemma_hand_uses(p, moves, done, r);
            assert(s.regs.count(r) >= s.known_uses(hand, r));
            assert(n.gpr(r) == m.gpr(r));
        }
    }
}

/// One more register that has its value.
proof fn lemma_more_done(
    s: State,
    n: Machine,
    moves: Seq<Move>,
    done: Seq<ValueLocation>,
    val: ValueLocation,
    p: Passing,
    j: int,
)
    requires
        s.has_or_gets(n, moves, done, p, j),
    ensures
        s.has_or_gets(n, moves, done.push(val), p, j),
{
    broadcast use lemma_uses_push;

}

/// No move that is put off goes to a place that comes before.
proof fn lemma_not_pending(p: Passing, k: int, moves: Seq<Move>)
    requires
        parameter_places(p.locs),
        0 < k <= p.locs.len(),
        forall|i: int| 0 <= i < moves.len() ==> p.is_sound(#[trigger] moves[i], k),
    ensures
        p.locs[k - 1] is Reg ==> !is_pending(moves, p.locs[k - 1]->Reg_0),
        forall|i: int| 0 <= i < moves.len() ==> p.is_sound(#[trigger] moves[i], k - 1),
{
    assert forall|i: int| 0 <= i < moves.len() implies (#[trigger] moves[i]).1
        != p.locs[k - 1].as_value() && p.is_sound(moves[i], k - 1) by {
        assert(p.is_sound(moves[i], k));
        let j = choose|j: int|
            k <= j < p.locs.len() && #[trigger] p.locs[j] == CCLoc::Reg(moves[i].1->Reg_0);
        assert(p.locs[k - 1] != p.locs[j]);
    }
}

/// The parts of `placing`, for the next step.
proof fn lemma_placing_parts(
    s: State,
    p: Passing,
    m: Machine,
    from: Seq<Insn>,
    moves: Seq<Move>,
    done: Seq<ValueLocation>,
    k: int,
)
    requires
        p.wf(),
        0 <= k <= p.locs.len(),
        s.placing(p, m, from, moves, done, k),
    ensures
        ({
            let n = ran(m, from, s.code);
            let (s1, val) = s.pop();
            &&& s.reached(m, from)
            &&& s.owns(p.in_hand(moves, done))
            &&& s.depth == p.s.depth + p.slots() - stacked(p.locs, k)
            &&& s.frame(n) == p.s.frame(p.start)
            &&& forall|i: int| 0 <= i < moves.len() ==> p.is_sound(#[trigger] moves[i], k)
            &&& forall|j: int|
                k <= j < p.locs.len() ==> #[trigger] s.has_or_gets(n, moves, done, p, j)
            &&& s.undisturbed(n, p)
            &&& k > 0 ==> {
                &&& s.stack.len() > 0
                &&& val.valid()
                &&& p.reaches(val)
                &&& s.value_of(n, val) == p.val(k - 1)
                &&& s1.stack == p.s.stack.take(p.base() + k - 1)
                &&& s1.owns(p.in_hand(moves, done).push(val))
                &&& s1.undisturbed(n, p)
            }
        }),
{
    reveal(State::placing);
    if k > 0 {
        let (s1, val) = s.pop();
        let n = ran(m, from, s.code);
        let last = p.base() + k - 1;
        assert(s.stack.len() == last + 1);
        assert(val == s.stack[last]);
        assert(val == p.s.stack[last]);
        assert(s.stack[last].valid());
        assert(s.value_at(n, last) == p.s.value_at(p.start, last));
        assert(s1.stack =~= p.s.stack.take(last));
        lemma_owns_pop(s, p.in_hand(moves, done));
        assert forall|i: int| 0 <= i < s1.stack.len() implies #[trigger] s1.value_at(n, i)
            == p.s.value_at(p.start, i) by {
            assert(s.value_at(n, i) == p.s.value_at(p.start, i));
        }
    }
}

/// Passing an argument in the register where it is.
proof fn lemma_passed_in_place(
    s: State,
    p: Passing,
    m: Machine,
    from: Seq<Insn>,
    k: int,
    moves: Seq<Move>,
    done: Seq<ValueLocation>,
)
    requires
        p.wf(),
        0 < k <= p.locs.len(),
        p.locs[k - 1] is Reg,
        s.placing(p, m, from, moves, done, k),
        s.pop().1 == p.locs[k - 1].as_value(),
    ensures
        s.pop().0.placing(p, m, from, moves, done.push(s.pop().1), k - 1),
{
    broadcast use lemma_uses_push;

    let (s1, val) = s.pop();
    let n = ran(m, from, s.code);
    lemma_placing_parts(s, p, m, from, moves, done, k);
    lemma_not_pending(p, k, moves);
    assert(p.in_hand(moves, done.push(val)) =~= p.in_hand(moves, done).push(val));
    assert forall|j: int| k - 1 <= j < p.locs.len() implies #[trigger] s1.has_or_gets(
        n,
        moves,
        done.push(val),
        p,
        j,
    ) by {
        if j >= k {
            assert(s.has_or_gets(n, moves, done, p, j));
            assert(s1.has_or_gets(n, moves, done, p, j));
            lemma_more_done(s1, n, moves, done, val, p, j);
        }
    }
    reveal(State::placing);
}

/// Copying a value that is in hand to a register that is free, which is in hand then.
proof fn lemma_copied(
    s: State,
    m: Machine,
    from: Seq<Insn>,
    hand: Seq<ValueLocation>,
    val: ValueLocation,
    r: GPR,
)
    requires
        s.reached(m, from),
        s.owns(hand.push(val)),
        place_is_sound(CCLoc::Reg(r)),
        s.regs.is_free(r),
        s.copy_value(val, ValueLocation::Reg(r)).free_value(val).mark_used(r).ok,
    ensures
        ({
            let t = s.copy_value(val, ValueLocation::Reg(r)).free_value(val).mark_used(r);
            let before = ran(m, from, s.code);
            let n = ran(m, from, t.code);
            &&& s.ok
            &&& t.reached(m, from)
            &&& t.owns(hand.push(ValueLocation::Reg(r)))
            &&& t.stack == s.stack
            &&& t.depth == s.depth
            &&& s.same_in_use(before, n)
            &&& n.gpr(r) == s.value_of(before, val)
        }),
{
    let u = s.copy_value(val, ValueLocation::Reg(r));
    assert(hand.push(val)[hand.len() as int].valid());
    let rsp = GPR::Rq(rq::RSP);
    assert(s.regs.count(rsp) >= s.known_uses(hand.push(val), rsp));
    copy_to_register(s, m, from, val, r);
    lemma_owns_code(s, u, hand.push(val));
    lemma_owns_free(u, hand, val);
    lemma_owns_mark_used(u.free_value(val), hand, r);
}

/// What is in hand and one value more: without that value all is still in hand.
proof fn lemma_hand_less(s: State, hand: Seq<ValueLocation>, val: ValueLocation)
    requires
        s.owns(hand.push(val)),
    ensures
        s.owns(hand),
{
    broadcast use lemma_uses_push;

    lemma_owns_reorder(s, hand.push(val), hand);
}

/// Passing an argument in a register that is free.
proof fn lemma_passed_in_register(
    s: State,
    p: Passing,
    m: Machine,
    from: Seq<Insn>,
    k: int,
    moves: Seq<Move>,
    done: Seq<ValueLocation>,
)
    requires
        p.wf(),
        0 < k <= p.locs.len(),
        p.locs[k - 1] is Reg,
        s.placing(p, m, from, moves, done, k),
        s.regs.is_free(p.locs[k - 1]->Reg_0),
        ({
            let (s1, val) = s.pop();
            let loc = p.locs[k - 1];
            s1.copy_value(val, loc.as_value()).free_value(val).mark_used(loc->Reg_0).ok
        }),
    ensures
        ({
            let (s1, val) = s.pop();
            let loc = p.locs[k - 1];
            s1.copy_value(val, loc.as_value()).free_value(val).mark_used(loc->Reg_0).placing(
                p,
                m,
                from,
                moves,
                done.push(loc.as_value()),
                k - 1,
            )
        }),
{
    broadcast use lemma_uses_push;

    let (s1, val) = s.pop();
    let before = ran(m, from, s.code);
    let loc = p.locs[k - 1];
    let r = loc->Reg_0;
    let hand = p.in_hand(moves, done);
    lemma_placing_parts(s, p, m, from, moves, done, k);
    lemma_not_pending(p, k, moves);
    assert(place_is_sound(loc));
    lemma_copied(s1, m, from, hand, val, r);
    let t = s1.copy_value(val, loc.as_value()).free_value(val).mark_used(r);
    let n = ran(m, from, t.code);
    lemma_hand_less(s1, hand, val);
    lemma_still_undisturbed(s1, t, before, n, moves, done, p);
    assert(p.in_hand(moves, done.push(loc.as_value())) =~= hand.push(loc.as_value()));
    assert forall|j: int| k - 1 <= j < p.locs.len() implies #[trigger] t.has_or_gets(
        n,
        moves,
        done.push(loc.as_value()),
        p,
        j,
    ) by {
        if j >= k {
            assert(s.has_or_gets(before, moves, done, p, j));
            assert(s1.has_or_gets(before, moves, done, p, j));
            lemma_place_kept(s1, t, before, n, moves, done, p, j);
            lemma_more_done(t, n, moves, done, loc.as_value(), p, j);
        }
    }
    reveal(State::placing);
}

/// Putting off the move of an argument whose register is in use.
proof fn lemma_put_off(
    s: State,
    p: Passing,
    m: Machine,
    from: Seq<Insn>,
    k: int,
    moves: Seq<Move>,
    done: Seq<ValueLocation>,
)
    requires
        p.wf(),
        0 < k <= p.locs.len(),
        p.locs[k - 1] is Reg,
        s.placing(p, m, from, moves, done, k),
    ensures
        s.pop().0.placing(
            p,
            m,
            from,
            moves.push((s.pop().1, p.locs[k - 1].as_value())),
            done,
            k - 1,
        ),
{
    broadcast use lemma_uses_push;

    let (s1, val) = s.pop();
    let n = ran(m, from, s.code);
    let loc = p.locs[k - 1];
    let mv: Move = (val, loc.as_value());
    let q = moves.push(mv);
    let hand = p.in_hand(moves, done);
    lemma_placing_parts(s, p, m, from, moves, done, k);
    lemma_not_pending(p, k, moves);
    assert(sources(q) =~= sources(moves).push(val));
    assert forall|g: GPR| #[trigger] uses(p.in_hand(q, done), g) <= uses(hand.push(val), g) by {
        lemma_hand_uses(p, q, done, g);
        lemma_hand_uses(p, moves, done, g);
    }
    lemma_owns_reorder(s1, hand.push(val), p.in_hand(q, done));
    assert forall|i: int| 0 <= i < q.len() implies p.is_sound(#[trigger] q[i], k - 1) by {
        if i < moves.len() {
            assert(q[i] == moves[i]);
        }
    }
    assert forall|j: int| k - 1 <= j < p.locs.len() implies #[trigger] s1.has_or_gets(
        n,
        q,
        done,
        p,
        j,
    ) by {
        assert(j >= k ==> s.has_or_gets(n, moves, done, p, j));
        lemma_gets_by_one_more(s, s1, n, moves, mv, done, p, j, k);
    }
    reveal(State::placing);
}

/// One more move is put off: every place has its value or gets it.
proof fn lemma_gets_by_one_more(
    s: State,
    t: State,
    n: Machine,
    moves: Seq<Move>,
    mv: Move,
    done: Seq<ValueLocation>,
    p: Passing,
    j: int,
    k: int,
)
    requires
        parameter_places(p.locs),
        0 < k <= p.locs.len(),
        k - 1 <= j < p.locs.len(),
        mv.1 == p.locs[k - 1].as_value(),
        p.locs[k - 1] is Reg,
        s.value_of(n, mv.0) == p.val(k - 1),
        j >= k ==> s.has_or_gets(n, moves, done, p, j),
        t.depth == s.depth,
        !is_pending(moves, p.locs[k - 1]->Reg_0),
    ensures
        t.has_or_gets(n, moves.push(mv), done, p, j),
{
    let q = moves.push(mv);
    assert(q[moves.len() as int] == mv);
    if let CCLoc::Reg(r) = p.locs[j] {
        if j >= k {
            assert(p.locs[k - 1] != p.locs[j]);
        }
        assert forall|i: int| 0 <= i < q.len() && (#[trigger] q[i]).1 == ValueLocation::Reg(
            r,
        ) implies t.value_of(n, q[i].0) == p.val(j) by {
            if i < moves.len() {
                assert(q[i] == moves[i]);
            }
        }
        if !is_pending(q, r) {
            assert(!is_pending(moves, r)) by {
                if is_pending(moves, r) {
                    let i = choose|i: int|
                        0 <= i < moves.len() && (#[trigger] moves[i]).1 == ValueLocation::Reg(r);
                    assert(q[i] == moves[i]);
                }
            }
        }
    }
}

/// What is kept when a word is pushed for a parameter: the values that are not in hand only for
/// the push.
proof fn lemma_kept_by_push(
    s: State,
    b: Machine,
    t: State,
    n: Machine,
    p: Passing,
    hand: Seq<ValueLocation>,
    val: ValueLocation,
)
    requires
        p.wf(),
        p.reaches(val),
        val is Reg ==> val->Reg_0.valid() && s.known_uses(hand, val->Reg_0) > 0,
        s.frame(b) == p.s.frame(p.start),
        t.frame(n) == p.s.frame(p.start),
        p.s.depth <= s.depth,
        t.depth == s.depth + 1,
        t.depth <= p.s.depth + p.slots(),
        forall|a: int| a >= b.rsp ==> #[trigger] (n.mem)(a) == (b.mem)(a),
        s.same_registers(hand, b, n),
    ensures
        t.value_of(n, val) == s.value_of(b, val),
{
    match val {
        ValueLocation::Stack(o) => {
            lemma_slot(s, b, o);
            lemma_slot(t, n, o);
            lemma_load_above(b, n, p.s.frame(p.start) + 8 * o);
        },
        ValueLocation::Reg(g) => {
            assert(n.gpr(g) == b.gpr(g));
        },
        _ => {},
    }
}

/// The words of all arguments that are passed on the machine's stack are pushed.
proof fn lemma_next_word(
    s: State,
    p: Passing,
    m: Machine,
    from: Seq<Insn>,
    k: int,
    depth: u32,
    moves: Seq<Move>,
    done: Seq<ValueLocation>,
)
    requires
        p.wf(),
        0 < k <= p.locs.len(),
        p.locs[k - 1] is Stack,
        depth == p.s.depth + p.slots(),
        s.placing(p, m, from, moves, done, k),
        s.pass_outgoing(p.locs[k - 1], depth, moves).0.ok,
    ensures
        ({
            let (s1, val) = s.pop();
            &&& s.pass_outgoing(p.locs[k - 1], depth, moves) == (s1.push_physical(val).0, moves)
            &&& p.low() + 8 * p.locs[k - 1]->Stack_0 == ran(m, from, s.code).rsp - 8
            &&& stacked(p.locs, k) == stacked(p.locs, k - 1) + 1
            &&& p.s.depth <= s.depth < p.s.depth + p.slots()
        }),
{
    let (s1, val) = s.pop();
    let o = p.locs[k - 1]->Stack_0;
    lemma_stacked(p.locs, 0, k - 1);
    lemma_stacked(p.locs, k, p.locs.len() as int);
    lemma_placing_parts(s, p, m, from, moves, done, k);
    let from_top = (o - depth as i32) as i32;
    assert(s1.depth + from_top == -1);
    assert(s1.slot_disp(from_top) == -8);
    let s2 = s1.need(s1.has_slot(from_top));
    assert(s2 == s1);
}

/// Passing an argument on the machine's stack.
proof fn lemma_passed_by_push(
    s: State,
    p: Passing,
    m: Machine,
    from: Seq<Insn>,
    k: int,
    depth: u32,
    moves: Seq<Move>,
    done: Seq<ValueLocation>,
)
    requires
        p.wf(),
        0 < k <= p.locs.len(),
        p.locs[k - 1] is Stack,
        depth == p.s.depth + p.slots(),
        s.placing(p, m, from, moves, done, k),
        s.pass_outgoing(p.locs[k - 1], depth, moves).0.ok,
    ensures
        ({
            let (t, q) = s.pass_outgoing(p.locs[k - 1], depth, moves);
            &&& q == moves
            &&& t.placing(p, m, from, moves, done, k - 1)
        }),
{
    let (s1, val) = s.pop();
    let before = ran(m, from, s.code);
    let hand = p.in_hand(moves, done);
    lemma_next_word(s, p, m, from, k, depth, moves, done);
    lemma_placing_parts(s, p, m, from, moves, done, k);
    lemma_not_pending(p, k, moves);
    let t = s1.push_physical(val).0;
    let n = ran(m, from, t.code);
    lemma_push_physical(s1, m, from, hand, val);
    assert(s1.owns(hand)) by {
        lemma_hand_less(s1, hand, val);
    }
    assert(t.undisturbed(n, p)) by {
        assert forall|i: int| 0 <= i < t.stack.len() implies #[trigger] t.value_at(n, i)
            == p.s.value_at(p.start, i) by {
            let loc = s1.stack[i];
            assert(loc == p.s.stack[i]);
            assert(loc.valid());
            assert(s1.value_at(before, i) == p.s.value_at(p.start, i));
            if loc is Reg {
                lemma_uses_at(s1.stack, i, loc->Reg_0);
            }
            lemma_kept_by_push(s1, before, t, n, p, hand, loc);
        }
        assert forall|g: GPR|
            g.valid() && reserved(g) + uses(p.held, g) > 0 implies #[trigger] n.gpr(g)
            == p.start.gpr(g) by {
            lemma_hand_uses(p, moves, done, g);
            assert(before.gpr(g) == p.start.gpr(g));
        }
        assert forall|a: int| a >= p.start.rsp implies #[trigger] (n.mem)(a) == (p.start.mem)(
            a,
        ) by {
            assert((before.mem)(a) == (p.start.mem)(a));
        }
    }
    assert forall|j: int| k - 1 <= j < p.locs.len() implies #[trigger] t.has_or_gets(
        n,
        moves,
        done,
        p,
        j,
    ) by {
        if j >= k {
            assert(s.has_or_gets(before, moves, done, p, j));
            lemma_place_kept_by_push(s1, before, t, n, moves, done, p, k, j);
        }
    }
    reveal(State::placing);
}

/// A place keeps its value, or still gets it, when a word is pushed for another parameter.
proof fn lemma_place_kept_by_push(
    s: State,
    b: Machine,
    t: State,
    n: Machine,
    moves: Seq<Move>,
    done: Seq<ValueLocation>,
    p: Passing,
    k: int,
    j: int,
)
    requires
        p.wf(),
        0 < k <= j < p.locs.len(),
        p.locs[k - 1] is Stack,
        p.low() + 8 * p.locs[k - 1]->Stack_0 == b.rsp - 8,
        s.owns(p.in_hand(moves, done)),
        s.has_or_gets(b, moves, done, p, j),
        forall|i: int| 0 <= i < moves.len() ==> p.is_sound(#[trigger] moves[i], k),
        s.frame(b) == p.s.frame(p.start),
        t.frame(n) == p.s.frame(p.start),
        p.s.depth <= s.depth,
        t.depth == s.depth + 1,
        t.depth <= p.s.depth + p.slots(),
        forall|a: int| a >= b.rsp ==> #[trigger] (n.mem)(a) == (b.mem)(a),
        s.same_registers(p.in_hand(moves, done), b, n),
    ensures
        t.has_or_gets(n, moves, done, p, j),
{
    let hand = p.in_hand(moves, done);
    assert(place_is_sound(p.locs[j]));
    match p.locs[j] {
        CCLoc::Stack(other) => {
            lemma_stacked(p.locs, k - 1, j);
            lemma_load_above(b, n, p.low() + 8 * other);
        },
        CCLoc::Reg(r) => {
            assert forall|i: int|
                0 <= i < moves.len() && (#[trigger] moves[i]).1 == ValueLocation::Reg(r)
                implies t.value_of(n, moves[i].0) == p.val(j) by {
                assert(p.is_sound(moves[i], k));
                lemma_source_in_hand(p, moves, done, i);
                assert(hand[p.held.len() + i].valid());
                lemma_kept_by_push(s, b, t, n, p, hand, moves[i].0);
            }
            if !is_pending(moves, r) {
                lemma_hand_uses(p, moves, done, r);
                assert(n.gpr(r) == b.gpr(r));
            }
        },
    }
}

/// The registers that have their values after one argument was passed.
pub open spec fn done_after(s: State, loc: CCLoc, done: Seq<ValueLocation>) -> Seq<ValueLocation> {
    match loc {
        CCLoc::Stack(_) => done,
        CCLoc::Reg(r) => if s.pop().1 == ValueLocation::Reg(r) || s.regs.is_free(r) {
            done.push(ValueLocation::Reg(r))
        } else {
            done
        },
    }
}

/// Passing one argument, or putting its move off.
proof fn lemma_pass_outgoing(
    s: State,
    p: Passing,
    m: Machine,
    from: Seq<Insn>,
    k: int,
    depth: u32,
    moves: Seq<Move>,
    done: Seq<ValueLocation>,
)
    requires
        p.wf(),
        0 < k <= p.locs.len(),
        depth == p.s.depth + p.slots(),
        s.placing(p, m, from, moves, done, k),
        s.pass_outgoing(p.locs[k - 1], depth, moves).0.ok,
    ensures
        ({
            let (t, q) = s.pass_outgoing(p.locs[k - 1], depth, moves);
            t.placing(p, m, from, q, done_after(s, p.locs[k - 1], done), k - 1)
        }),
{
    match p.locs[k - 1] {
        CCLoc::Stack(_) => {
            lemma_passed_by_push(s, p, m, from, k, depth, moves, done);
        },
        CCLoc::Reg(r) => {
            let (s1, val) = s.pop();
            let s2 = s1.need(r.valid());
            assert(place_is_sound(p.locs[k - 1]));
            assert(s2 == s1);
            if val == ValueLocation::Reg(r) {
                lemma_passed_in_place(s, p, m, from, k, moves, done);
            } else if s.regs.is_free(r) {
                lemma_passed_in_register(s, p, m, from, k, moves, done);
            } else {
                lemma_put_off(s, p, m, from, k, moves, done);
            }
        },
    }
}

/// Passing all arguments, from the last to the first.
pub proof fn lemma_pass_all_outgoing(
    s: State,
    p: Passing,
    m: Machine,
    from: Seq<Insn>,
    k: int,
    depth: u32,
    moves: Seq<Move>,
    done: Seq<ValueLocation>,
) -> (all: Seq<ValueLocation>)
    requires
        p.wf(),
        0 <= k <= p.locs.len(),
        depth == p.s.depth + p.slots(),
        s.placing(p, m, from, moves, done, k),
        s.pass_all_outgoing(p.locs.take(k), depth, moves).0.ok,
    ensures
        ({
            let (t, q) = s.pass_all_outgoing(p.locs.take(k), depth, moves);
            t.placing(p, m, from, q, all, 0)
        }),
    decreases k,
{
    if k > 0 {
        let (u, q) = s.pass_outgoing(p.locs[k - 1], depth, moves);
        assert(p.locs.take(k).last() == p.locs[k - 1]);
        assert(p.locs.take(k).drop_last() =~= p.locs.take(k - 1));
        lemma_pass_all_outgoing_ok(u, p.locs.take(k - 1), depth, q);
        lemma_pass_outgoing(s, p, m, from, k, depth, moves, done);
        lemma_pass_all_outgoing(
            u,
            p,
            m,
            from,
            k - 1,
            depth,
            q,
            done_after(s, p.locs[k - 1], done),
        )
    } else {
        done
    }
}

/// The sources without that of the move number `i`.
proof fn lemma_sources_without(moves: Seq<Move>, i: int, gpr: GPR)
    requires
        0 <= i < moves.len(),
    ensures
        uses(sources(moves.remove(i)).push(moves[i].0), gpr) == uses(sources(moves), gpr),
{
    broadcast use lemma_uses_push;

    lemma_uses_remove(sources(moves), i, gpr);
    assert(sources(moves).remove(i) =~= sources(moves.remove(i)));
}

/// After one move was made, every place has its value or gets it by the moves that are left.
proof fn lemma_gets_by_others(
    s: State,
    n: Machine,
    moves: Seq<Move>,
    i: int,
    done: Seq<ValueLocation>,
    p: Passing,
    j: int,
)
    requires
        0 <= i < moves.len(),
        moves[i].1 is Reg,
        s.has_or_gets(n, moves, done, p, j),
        p.locs[j] == CCLoc::Reg(moves[i].1->Reg_0) ==> n.gpr(moves[i].1->Reg_0) == p.val(j),
    ensures
        s.has_or_gets(n, moves.remove(i), done.push(moves[i].1), p, j),
{
    broadcast use lemma_uses_push;

    let left = moves.remove(i);
    if let CCLoc::Reg(place) = p.locs[j] {
        assert forall|k: int|
            0 <= k < left.len() && (#[trigger] left[k]).1 == ValueLocation::Reg(place)
            implies s.value_of(n, left[k].0) == p.val(j) by {
            let k1 = if k < i {
                k
            } else {
                k + 1
            };
            assert(left[k] == moves[k1]);
        }
        if !is_pending(left, place) && place != moves[i].1->Reg_0 {
            assert(!is_pending(moves, place)) by {
                if is_pending(moves, place) {
                    let k = choose|k: int|
                        0 <= k < moves.len() && (#[trigger] moves[k]).1 == ValueLocation::Reg(
                            place,
                        );
                    if k < i {
                        assert(left[k] == moves[k]);
                    } else {
                        assert(left[k - 1] == moves[k]);
                    }
                }
            }
        }
    }
}

/// Making one of the moves, whose destination is free.
proof fn lemma_move_made(
    s: State,
    p: Passing,
    m: Machine,
    from: Seq<Insn>,
    moves: Seq<Move>,
    done: Seq<ValueLocation>,
    i: int,
)
    requires
        p.wf(),
        0 <= i < moves.len(),
        s.placing(p, m, from, moves, done, 0),
        s.regs.is_free(moves[i].1->Reg_0),
        s.copy_value(moves[i].0, moves[i].1).free_value(moves[i].0).mark_value(moves[i].1).ok,
    ensures
        s.copy_value(moves[i].0, moves[i].1).free_value(moves[i].0).mark_value(
            moves[i].1,
        ).placing(p, m, from, moves.remove(i), done.push(moves[i].1), 0),
{
    broadcast use lemma_uses_push;

    lemma_placing_parts(s, p, m, from, moves, done, 0);
    let (val, dst) = moves[i];
    let r = dst->Reg_0;
    let left = moves.remove(i);
    let before = ran(m, from, s.code);
    let hand = p.in_hand(moves, done);
    let rest = p.in_hand(left, done);
    assert(p.is_sound(moves[i], 0));
    let to = choose|j: int| 0 <= j < p.locs.len() && #[trigger] p.locs[j] == CCLoc::Reg(r);
    assert(place_is_sound(p.locs[to]));
    assert forall|g: GPR| #[trigger] uses(rest.push(val), g) <= uses(hand, g) by {
        lemma_hand_uses(p, moves, done, g);
        lemma_hand_uses(p, left, done, g);
        lemma_sources_without(moves, i, g);
    }
    lemma_owns_reorder(s, hand, rest.push(val));
    lemma_copied(s, m, from, rest, val, r);
    let t = s.copy_value(val, dst).free_value(val).mark_value(dst);
    let n = ran(m, from, t.code);
    lemma_still_undisturbed(s, t, before, n, moves, done, p);
    assert(p.in_hand(left, done.push(dst)) =~= rest.push(dst));
    assert forall|k: int| 0 <= k < left.len() implies p.is_sound(#[trigger] left[k], 0) by {
        let k1 = if k < i {
            k
        } else {
            k + 1
        };
        assert(left[k] == moves[k1]);
    }
    assert forall|j: int| 0 <= j < p.locs.len() implies #[trigger] t.has_or_gets(
        n,
        left,
        done.push(dst),
        p,
        j,
    ) by {
        assert(s.has_or_gets(before, moves, done, p, j));
        lemma_place_kept(s, t, before, n, moves, done, p, j);
        lemma_gets_by_others(t, n, moves, i, done, p, j);
    }
    assert(t.stack == p.s.stack.take(p.base())) by {
        reveal(State::placing);
    }
    reveal(State::placing);
}

/// A move goes to a register that the machine has.
proof fn lemma_move_to_place(
    s: State,
    p: Passing,
    m: Machine,
    from: Seq<Insn>,
    moves: Seq<Move>,
    done: Seq<ValueLocation>,
    i: int,
)
    requires
        p.wf(),
        0 <= i < moves.len(),
        s.placing(p, m, from, moves, done, 0),
    ensures
        moves[i].1 is Reg,
        moves[i].1->Reg_0.valid(),
{
    lemma_placing_parts(s, p, m, from, moves, done, 0);
    assert(p.is_sound(moves[i], 0));
    let j = choose|j: int|
        0 <= j < p.locs.len() && #[trigger] p.locs[j] == CCLoc::Reg(moves[i].1->Reg_0);
    assert(place_is_sound(p.locs[j]));
}

/// Trying each of the moves once.
proof fn lemma_try_moves(
    s: State,
    p: Passing,
    m: Machine,
    from: Seq<Insn>,
    moves: Seq<Move>,
    kept: Seq<Move>,
    done: Seq<ValueLocation>,
) -> (all: Seq<ValueLocation>)
    requires
        p.wf(),
        s.placing(p, m, from, kept + moves, done, 0),
        s.try_moves(moves, kept).0.ok,
    ensures
        ({
            let (t, left) = s.try_moves(moves, kept);
            t.placing(p, m, from, left, all, 0)
        }),
    decreases moves.len(),
{
    if moves.len() == 0 {
        assert(kept + moves =~= kept);
        done
    } else {
        let pending = kept + moves;
        let i = kept.len() as int;
        let rest = moves.drop_first();
        let (u, left) = s.try_move(moves.first(), kept);
        lemma_try_moves_ok(u, rest, left);
        assert(pending[i] == moves.first());
        let r = pending[i].1->Reg_0;
        lemma_move_to_place(s, p, m, from, pending, done, i);
        assert(s.need(r.valid()) == s);
        if !s.regs.is_free(r) {
            assert(left + rest =~= pending);
            lemma_try_moves(u, p, m, from, rest, left, done)
        } else {
            lemma_move_made(s, p, m, from, pending, done, i);
            assert(left + rest =~= pending.remove(i));
            lemma_try_moves(u, p, m, from, rest, left, done.push(pending[i].1))
        }
    }
}

/// Making all moves.
pub proof fn lemma_make_moves(
    s: State,
    p: Passing,
    m: Machine,
    from: Seq<Insn>,
    moves: Seq<Move>,
    done: Seq<ValueLocation>,
    tries: nat,
) -> (all: Seq<ValueLocation>)
    requires
        p.wf(),
        s.placing(p, m, from, moves, done, 0),
        s.make_moves(moves, tries).ok,
    ensures
        s.make_moves(moves, tries).placing(p, m, from, Seq::empty(), all, 0),
    decreases tries,
{
    if moves.len() == 0 {
        assert(moves =~= Seq::empty());
        done
    } else {
        assert(tries > 0);
        let (u, kept) = s.try_moves(moves, Seq::empty());
        lemma_make_moves_ok(u, kept, (tries - 1) as nat);
        assert(Seq::<Move>::empty() + moves =~= moves);
        let more = lemma_try_moves(s, p, m, from, moves, Seq::empty(), done);
        lemma_make_moves(u, p, m, from, kept, more, (tries - 1) as nat)
    }
}

/// Places that are all different use a register at most once.
proof fn lemma_places_differ(locs: Seq<CCLoc>, gpr: GPR)
    requires
        forall|i: int, j: int|
            0 <= i < j < locs.len() ==> #[trigger] locs[i] != #[trigger] locs[j],
    ensures
        uses(as_values(locs), gpr) <= 1,
        uses(as_values(locs), gpr) > 0 ==> locs.contains(CCLoc::Reg(gpr)),
    decreases locs.len(),
{
    if locs.len() > 0 {
        let rest = locs.drop_last();
        let vals = as_values(locs);
        assert(vals.drop_last() =~= as_values(rest));
        assert forall|i: int, j: int| 0 <= i < j < rest.len() implies #[trigger] rest[i]
            != #[trigger] rest[j] by {
            assert(locs[i] != locs[j]);
        }
        lemma_places_differ(rest, gpr);
        if uses(as_values(rest), gpr) > 0 {
            let i = choose|i: int| 0 <= i < rest.len() && rest[i] == CCLoc::Reg(gpr);
            assert(locs[i] == CCLoc::Reg(gpr));
            assert(locs[i] != locs[locs.len() - 1]);
        } else if vals.last() == ValueLocation::Reg(gpr) {
            assert(locs[locs.len() - 1] == CCLoc::Reg(gpr));
        }
    }
}

/// When all arguments are passed, the registers of the parameters are in hand.
pub proof fn lemma_all_placed(
    s: State,
    p: Passing,
    m: Machine,
    from: Seq<Insn>,
    done: Seq<ValueLocation>,
)
    requires
        p.wf(),
        s.placing(p, m, from, Seq::empty(), done, 0),
    ensures
        ({
            let n = ran(m, from, s.code);
            &&& s.reached(m, from)
            &&& s.owns(p.held + as_values(p.locs))
            &&& s.stack == p.s.stack.take(p.base())
            &&& s.depth == p.s.depth + p.slots()
            &&& s.frame(n) == p.s.frame(p.start)
            &&& s.undisturbed(n, p)
            &&& forall|j: int|
                0 <= j < p.locs.len() ==> match #[trigger] p.locs[j] {
                    CCLoc::Stack(o) => load(n.mem, p.low() + 8 * o) == p.val(j),
                    CCLoc::Reg(r) => n.gpr(r) == p.val(j),
                }
        }),
{
    reveal(State::placing);
    let moves = Seq::<Move>::empty();
    let n = ran(m, from, s.code);
    assert forall|j: int| 0 <= j < p.locs.len() implies match #[trigger] p.locs[j] {
        CCLoc::Stack(o) => load(n.mem, p.low() + 8 * o) == p.val(j),
        CCLoc::Reg(r) => n.gpr(r) == p.val(j) && uses(done, r) > 0,
    } by {
        assert(s.has_or_gets(n, moves, done, p, j));
    }
    assert forall|g: GPR| #[trigger] uses(p.held + as_values(p.locs), g) <= uses(
        p.in_hand(moves, done),
        g,
    ) by {
        lemma_hand_uses(p, moves, done, g);
        lemma_uses_add(p.held, as_values(p.locs), g);
        lemma_places_differ(p.locs, g);
        if uses(as_values(p.locs), g) > 0 {
            let j = choose|j: int| 0 <= j < p.locs.len() && p.locs[j] == CCLoc::Reg(g);
            assert(p.locs[j] == CCLoc::Reg(g));
        }
    }
    lemma_owns_reorder(s, p.in_hand(moves, done), p.held + as_values(p.locs));
}

/// Counting uses of registers puts them in hand.
pub proof fn lemma_mark_all_owns(s: State, held: Seq<ValueLocation>, vals: Seq<ValueLocation>)
    requires
        s.owns(held),
        s.mark_all(vals).ok,
        forall|i: int| 0 <= i < vals.len() ==> #[trigger] vals[i].valid(),
    ensures
        s.mark_all(vals).owns(held + vals),
    decreases vals.len(),
{
    broadcast use lemma_uses_push;

    if vals.len() == 0 {
        assert(held + vals =~= held);
    } else {
        let rest = vals.drop_last();
        let val = vals.last();
        assert forall|i: int| 0 <= i < rest.len() implies #[trigger] rest[i].valid() by {
            assert(rest[i] == vals[i]);
        }
        lemma_mark_all_owns(s, held, rest);
        let u = s.mark_all(rest);
        assert(held + vals =~= (held + rest).push(val));
        assert(vals[vals.len() - 1].valid());
        if val is Reg {
            lemma_owns_mark_used(u, held + rest, val->Reg_0);
        } else {
            lemma_owns_hold(u, held + rest, val);
        }
    }
}

/// Giving back registers that are in hand.
pub proof fn lemma_release_all_owns(s: State, held: Seq<ValueLocation>, vals: Seq<ValueLocation>)
    requires
        s.owns(held + vals),
    ensures
        s.release_all(vals).owns(held),
        s.ok ==> s.release_all(vals).ok,
        s.release_all(vals) == (State {
            regs: s.release_all(vals).regs,
            ok: s.release_all(vals).ok,
            ..s
        }),
    decreases vals.len(),
{
    broadcast use lemma_uses_push;

    if vals.len() == 0 {
        assert(held + vals =~= held);
    } else {
        let rest = vals.drop_last();
        let val = vals.last();
        assert forall|g: GPR| #[trigger] uses(held.push(val) + rest, g) <= uses(
            held + vals,
            g,
        ) by {
            lemma_uses_add(held.push(val), rest, g);
            lemma_uses_add(held, vals, g);
        }
        lemma_owns_reorder(s, held + vals, held.push(val) + rest);
        lemma_release_all_owns(s, held.push(val), rest);
        lemma_owns_free(s.release_all(rest), held, val);
    }
}

} // verus!
