//! The call by which the generated code prints a message.

use vstd::prelude::*;

use crate::branches::print_code;
use crate::insn::{Cond, Insn, LocalLabel, Operand, Width};
use crate::laws::blocks::lemma_load_above;
use crate::machine::{load, run, Control, Machine};
use crate::registers::{rq, RegId};
use crate::simulation::{lemma_ran_on, lemma_ran_push, load_after_store, ran};

verus! {

/// Running `code` from `start`, and on from the local label that it jumps to.
#[verifier::opaque]
pub open spec fn followed(m: Machine, code: Seq<Insn>, start: int) -> Machine {
    let n = run(m, code.skip(start));
    match n.next {
        Control::JumpLocal(label) => run(
            Machine { next: Control::Next, ..n },
            code.skip(code.index_of(Insn::DefineLocal(label))),
        ),
        _ => n,
    }
}

/// Whether `c` is what the machine can be like after the function that it was about to call in
/// `n`: the stack pointer, the memory from there on and the registers that belong to the caller
/// are as they were.
pub open spec fn back_from_call(n: Machine, c: Machine) -> bool {
    &&& c.wf()
    &&& c.next is Next
    &&& c.rsp == n.rsp
    &&& forall|a: int| a >= n.rsp ==> #[trigger] (c.mem)(a) == (n.mem)(a)
    &&& forall|r: int|
        0 <= r < 16 && (r == rq::RBX || r == rq::RBP || r >= rq::R12) ==> #[trigger] c.rq[r]
            == n.rq[r]
}

/// Whether the machine is about to go on in `n` with the stack and all integer registers but `rax`
/// as they were in `m`.
pub open spec fn kept(m: Machine, n: Machine) -> bool {
    &&& n.wf()
    &&& n.next is Next
    &&& n.rsp == m.rsp
    &&& forall|a: int| a >= m.rsp ==> #[trigger] (n.mem)(a) == (m.mem)(a)
    &&& forall|r: int|
        0 <= r < 16 && r != rq::RAX && r != rq::RSP ==> #[trigger] n.rq[r] == m.rq[r]
}

/// Whether `q` is the machine after `m` has pushed the first `n` of the registers.
#[verifier::opaque]
spec fn pushed(m: Machine, q: Machine, regs: Seq<RegId>, n: int) -> bool {
    &&& q == (Machine { rsp: m.rsp - 8 * n, mem: q.mem, ..m })
    &&& forall|a: int| a >= m.rsp ==> #[trigger] (q.mem)(a) == (m.mem)(a)
    &&& forall|i: int|
        0 <= i < n ==> load(q.mem, m.rsp - 8 * (i + 1)) == m.rq[#[trigger] regs[i] as int]
}

proof fn lemma_pushed_one_more(m: Machine, p: Machine, regs: Seq<RegId>, n: int)
    requires
        m.wf(),
        0 <= n < regs.len(),
        regs[n] < 16,
        pushed(m, p, regs, n),
    ensures
        p.next == m.next,
        pushed(m, p.step(Insn::Push(Operand::rq(regs[n]))), regs, n + 1),
{
    reveal(pushed);
    let q = p.step(Insn::Push(Operand::rq(regs[n])));
    load_after_store(p.mem, p.rsp - 8, m.rq[regs[n] as int]);
    assert forall|i: int| 0 <= i < n + 1 implies load(q.mem, m.rsp - 8 * (i + 1))
        == m.rq[#[trigger] regs[i] as int] by {
        if i < n {
            lemma_load_above(p, q, m.rsp - 8 * (i + 1));
        }
    }
}

/// Registers that are pushed one after the other.
proof fn lemma_pushed(m: Machine, code: Seq<Insn>, start: int, regs: Seq<RegId>, n: int)
    requires
        m.wf(),
        m.next is Next,
        0 <= start,
        0 <= n <= regs.len(),
        start + n <= code.len(),
        forall|i: int| 0 <= i < n ==> (#[trigger] regs[i]) < 16,
        forall|i: int|
            0 <= i < n ==> code[start + i] == Insn::Push(Operand::rq(#[trigger] regs[i])),
    ensures
        pushed(m, part(m, code, start, start + n), regs, n),
    decreases n,
{
    if n == 0 {
        lemma_none(m, code, start);
        reveal(pushed);
    } else {
        lemma_pushed(m, code, start, regs, n - 1);
        let p = part(m, code, start, start + n - 1);
        assert(regs[n - 1] < 16);
        lemma_pushed_one_more(m, p, regs, n - 1);
        lemma_parts(m, code, start, start + n - 1, start + n);
        lemma_one(p, code, start + n - 1);
    }
}

/// Whether `q` is the machine after `m` has popped the first `n` of the registers.
#[verifier::opaque]
spec fn popped(m: Machine, q: Machine, regs: Seq<RegId>, n: int) -> bool {
    &&& q.wf()
    &&& q.next is Next
    &&& q.rsp == m.rsp + 8 * n
    &&& q.mem == m.mem
    &&& forall|i: int| 0 <= i < n ==> q.rq[#[trigger] regs[i] as int] == load(m.mem, m.rsp + 8 * i)
    &&& forall|r: RegId| r < 16 && !regs.take(n).contains(r) ==> #[trigger] q.rq[r as int]
        == m.rq[r as int]
}

proof fn lemma_popped_one_more(m: Machine, p: Machine, regs: Seq<RegId>, n: int)
    requires
        0 <= n < regs.len(),
        regs[n] < 16,
        regs.no_duplicates(),
        forall|i: int| 0 <= i < n ==> (#[trigger] regs[i]) < 16,
        popped(m, p, regs, n),
    ensures
        p.next is Next,
        popped(m, p.step(Insn::Pop(regs[n])), regs, n + 1),
{
    reveal(popped);
    let q = p.step(Insn::Pop(regs[n]));
    assert forall|r: RegId| r < 16 && !regs.take(n + 1).contains(r) implies #[trigger] q.rq[r
        as int] == m.rq[r as int] by {
        assert(regs.take(n + 1)[n] == regs[n]);
        assert(!regs.take(n).contains(r)) by {
            if regs.take(n).contains(r) {
                let i = choose|i: int| 0 <= i < n && regs.take(n)[i] == r;
                assert(regs.take(n + 1)[i] == r);
            }
        }
    }
}

/// Registers that are popped one after the other.
proof fn lemma_popped(m: Machine, code: Seq<Insn>, start: int, regs: Seq<RegId>, n: int)
    requires
        m.wf(),
        m.next is Next,
        0 <= start,
        0 <= n <= regs.len(),
        start + n <= code.len(),
        regs.no_duplicates(),
        forall|i: int| 0 <= i < n ==> (#[trigger] regs[i]) < 16,
        forall|i: int| 0 <= i < n ==> code[start + i] == Insn::Pop(#[trigger] regs[i]),
    ensures
        popped(m, part(m, code, start, start + n), regs, n),
    decreases n,
{
    if n == 0 {
        lemma_none(m, code, start);
        reveal(popped);
    } else {
        lemma_popped(m, code, start, regs, n - 1);
        let p = part(m, code, start, start + n - 1);
        assert(regs[n - 1] < 16);
        lemma_popped_one_more(m, p, regs, n - 1);
        lemma_parts(m, code, start, start + n - 1, start + n);
        lemma_one(p, code, start + n - 1);
    }
}

/// The machine after the instructions from number `start` up to `end`.
#[verifier::opaque]
spec fn part(m: Machine, code: Seq<Insn>, start: int, end: int) -> Machine {
    ran(m, code.take(start), code.take(end))
}

/// No instruction.
proof fn lemma_none(m: Machine, code: Seq<Insn>, at: int)
    requires
        0 <= at <= code.len(),
    ensures
        part(m, code, at, at) == m,
{
    reveal(part);
    assert(code.take(at).skip(at).len() == 0);
}

/// One instruction.
proof fn lemma_one(m: Machine, code: Seq<Insn>, at: int)
    requires
        m.next is Next,
        0 <= at < code.len(),
    ensures
        part(m, code, at, at + 1) == m.step(code[at]),
{
    lemma_none(m, code, at);
    reveal(part);
    assert(code.take(at + 1) =~= code.take(at).push(code[at]));
    lemma_ran_push(m, code.take(at), code.take(at), code[at]);
}

/// Running on after a part of the code.
proof fn lemma_parts(m: Machine, code: Seq<Insn>, start: int, mid: int, end: int)
    requires
        0 <= start <= mid <= end <= code.len(),
    ensures
        part(m, code, start, end) == ({
            let n = part(m, code, start, mid);
            if n.next is Next {
                part(n, code, mid, end)
            } else {
                n
            }
        }),
{
    reveal(part);
    lemma_ran_on(m, code.take(start), code.take(mid), code.take(end));
}

/// One more instruction after the first ones.
proof fn lemma_one_more(m: Machine, code: Seq<Insn>, at: int)
    requires
        0 <= at < code.len(),
        part(m, code, 0, at).next is Next,
    ensures
        part(m, code, 0, at + 1) == part(m, code, 0, at).step(code[at]),
{
    lemma_parts(m, code, 0, at, at + 1);
    lemma_one(part(m, code, 0, at), code, at);
}

/// Following code that does not jump to a local label.
proof fn lemma_followed(m: Machine, code: Seq<Insn>, start: int, end: int)
    requires
        0 <= start <= end <= code.len(),
        !(part(m, code, start, end).next is JumpLocal),
    ensures
        followed(m, code.take(end), start) == part(m, code, start, end),
{
    reveal(part);
    reveal(followed);
    assert(code.take(start).len() == start);
}

/// Following code that jumps to a local label.
proof fn lemma_followed_jump(
    m: Machine,
    code: Seq<Insn>,
    start: int,
    end: int,
    label: LocalLabel,
    at: int,
)
    requires
        0 <= start <= end <= code.len(),
        part(m, code, start, end).next == Control::JumpLocal(label),
        code.take(end).index_of(Insn::DefineLocal(label)) == at,
        0 <= at <= end,
    ensures
        followed(m, code.take(end), start) == part(
            Machine { next: Control::Next, ..part(m, code, start, end) },
            code,
            at,
            end,
        ),
{
    reveal(part);
    reveal(followed);
    assert(code.take(start).len() == start);
    assert(code.take(at).len() == at);
}

/// The registers that are kept.
pub open spec fn kept_registers() -> Seq<RegId> {
    seq![rq::RDI, rq::RSI, rq::RDX, rq::RCX, rq::R8, rq::R9, rq::R10, rq::R11]
}

/// Whether the machine is in `n` about to call the function at `printer` with the arguments `len`
/// and `ptr`, with an aligned stack pointer, and the registers of `m` that are to be kept are on
/// the stack.
pub open spec fn about_to_print(m: Machine, n: Machine, printer: i64, len: i64, ptr: i64) -> bool {
    &&& n.wf()
    &&& n.next == Control::Call(printer as u64)
    &&& n.rq[rq::RDI as int] == len as u64
    &&& n.rq[rq::RSI as int] == ptr as u64
    &&& n.rsp % 16 == 0
    &&& n.rsp < m.rsp
    &&& forall|a: int| a >= m.rsp ==> #[trigger] (n.mem)(a) == (m.mem)(a)
    &&& forall|r: int|
        0 <= r < 16 && r != rq::RAX && r != rq::RDI && r != rq::RSI ==> #[trigger] n.rq[r]
            == m.rq[r]
}

/// Whether the registers that are to be kept are on the stack.
#[verifier::opaque]
spec fn on_stack(m: Machine, n: Machine) -> bool {
    let regs = kept_registers();
    forall|i: int|
        0 <= i < 8 ==> load(n.mem, m.rsp - 8 * (i + 1)) == m.rq[#[trigger] regs[i] as int]
}

proof fn lemma_aligned(x: u64)
    by (bit_vector)
    ensures
        (x & 0b1111u64 == 0) == (x % 16 == 0),
{
}

/// The instructions that load the arguments and the address of the function and test the stack
/// pointer.
spec fn print_setup(printer: i64, len: i64, ptr: i64) -> Seq<Insn> {
    seq![
        Insn::Mov { w: Width::Q, dst: Operand::rq(rq::RAX), src: Operand::Imm(printer) },
        Insn::Mov { w: Width::Q, dst: Operand::rq(rq::RDI), src: Operand::Imm(len) },
        Insn::Mov { w: Width::Q, dst: Operand::rq(rq::RSI), src: Operand::Imm(ptr) },
        Insn::Test { w: Width::Q, left: rq::RSP, right: Operand::Imm(0b1111) },
        Insn::JccLocal { cond: Cond::Ne, label: LocalLabel::WithAdjustedStackPtr },
    ]
}

/// Whether `n` is the machine after these, if the registers to be kept were pushed before.
#[verifier::opaque]
spec fn print_prepared(m: Machine, n: Machine, printer: i64, len: i64, ptr: i64) -> bool {
    &&& n.wf()
    &&& n.rsp == m.rsp - 64
    &&& n.next == (if n.rsp % 16 == 0 {
        Control::Next
    } else {
        Control::JumpLocal(LocalLabel::WithAdjustedStackPtr)
    })
    &&& n.rq[rq::RAX as int] == printer as u64
    &&& n.rq[rq::RDI as int] == len as u64
    &&& n.rq[rq::RSI as int] == ptr as u64
    &&& forall|a: int| a >= m.rsp ==> #[trigger] (n.mem)(a) == (m.mem)(a)
    &&& forall|r: int|
        0 <= r < 16 && r != rq::RAX && r != rq::RDI && r != rq::RSI ==> #[trigger] n.rq[r]
            == m.rq[r]
    &&& on_stack(m, n)
}

proof fn lemma_print_setup(m: Machine, p: Machine, printer: i64, len: i64, ptr: i64)
    requires
        m.wf(),
        m.next is Next,
        m.rsp % 8 == 0,
        72 <= m.rsp <= u64::MAX,
        pushed(m, p, kept_registers(), 8),
    ensures
        ({
            let code = print_setup(printer, len, ptr);
            let n4 = p.step(code[0]).step(code[1]).step(code[2]).step(code[3]);
            &&& p.next is Next
            &&& p.step(code[0]).next is Next
            &&& p.step(code[0]).step(code[1]).next is Next
            &&& p.step(code[0]).step(code[1]).step(code[2]).next is Next
            &&& n4.next is Next
            &&& print_prepared(m, n4.step(code[4]), printer, len, ptr)
        }),
{
    reveal(pushed);
    reveal(on_stack);
    reveal(print_prepared);
    lemma_aligned(p.rsp as u64);
    assert(0b1111i64 as u64 == 0b1111u64);
}

/// The first part: the registers are saved, the arguments and the address of the function are
/// loaded, and the stack pointer is tested.
proof fn lemma_print_start(m: Machine, code: Seq<Insn>, printer: i64, len: i64, ptr: i64)
    requires
        m.wf(),
        m.next is Next,
        m.rsp % 8 == 0,
        72 <= m.rsp <= u64::MAX,
        code.len() >= 13,
        forall|i: int|
            0 <= i < 8 ==> code[i] == Insn::Push(Operand::rq(#[trigger] kept_registers()[i])),
        code.subrange(8, 13) == print_setup(printer, len, ptr),
    ensures
        print_prepared(m, part(m, code, 0, 13), printer, len, ptr),
{
    let setup = print_setup(printer, len, ptr);
    lemma_pushed(m, code, 0, kept_registers(), 8);
    let p = part(m, code, 0, 8);
    lemma_print_setup(m, p, printer, len, ptr);
    let n1 = p.step(setup[0]);
    let n2 = n1.step(setup[1]);
    let n3 = n2.step(setup[2]);
    let n4 = n3.step(setup[3]);
    assert(code.subrange(8, 13)[0] == code[8]);
    assert(code.subrange(8, 13)[1] == code[9]);
    assert(code.subrange(8, 13)[2] == code[10]);
    assert(code.subrange(8, 13)[3] == code[11]);
    assert(code.subrange(8, 13)[4] == code[12]);
    lemma_one_more(m, code, 8);
    lemma_one_more(m, code, 9);
    lemma_one_more(m, code, 10);
    lemma_one_more(m, code, 11);
    lemma_one_more(m, code, 12);
}

/// Where the instructions at both ends stand.
#[verifier::opaque]
spec fn saves_and_restores(code: Seq<Insn>, printer: i64, len: i64, ptr: i64) -> bool {
    &&& forall|i: int|
        0 <= i < 8 ==> code[i] == Insn::Push(Operand::rq(#[trigger] kept_registers()[i]))
    &&& code.subrange(8, 13) == print_setup(printer, len, ptr)
    &&& forall|i: int|
        0 <= i < 8 ==> code[20 + i] == Insn::Pop(#[trigger] kept_registers().reverse()[i])
}

/// Where each instruction stands.
spec fn is_print_code(code: Seq<Insn>, printer: i64, len: i64, ptr: i64) -> bool {
    &&& code.len() == 28
    &&& saves_and_restores(code, printer, len, ptr)
    &&& code[13] == Insn::CallReg(rq::RAX)
    &&& code[14] == Insn::JmpLocal(LocalLabel::PopRest)
    &&& code[15] == Insn::DefineLocal(LocalLabel::WithAdjustedStackPtr)
    &&& code[16] == Insn::Push(Operand::Imm(1))
    &&& code[17] == Insn::CallReg(rq::RAX)
    &&& code[18] == Insn::Pop(rq::R11)
    &&& code[19] == Insn::DefineLocal(LocalLabel::PopRest)
}

proof fn lemma_print_code(printer: i64, len: i64, ptr: i64)
    ensures
        is_print_code(print_code(printer, len, ptr), printer, len, ptr),
{
    reveal(saves_and_restores);
    let code = print_code(printer, len, ptr);
    let regs = kept_registers();
    let back = regs.reverse();
    assert(code.subrange(8, 13) =~= print_setup(printer, len, ptr));
    assert(back[0] == rq::R11 && back[1] == rq::R10 && back[2] == rq::R9 && back[3] == rq::R8);
    assert(back[4] == rq::RCX && back[5] == rq::RDX && back[6] == rq::RSI && back[7] == rq::RDI);
    assert forall|i: int| 0 <= i < 8 implies code[i] == Insn::Push(
        Operand::rq(#[trigger] regs[i]),
    ) by {
        if i == 0 {
        } else if i == 1 {
        } else if i == 2 {
        } else if i == 3 {
        } else if i == 4 {
        } else if i == 5 {
        } else if i == 6 {
        }
    }
    assert forall|i: int| 0 <= i < 8 implies code[20 + i] == Insn::Pop(#[trigger] back[i]) by {
        if i == 0 {
        } else if i == 1 {
        } else if i == 2 {
        } else if i == 3 {
        } else if i == 4 {
        } else if i == 5 {
        } else if i == 6 {
        }
    }
}

/// Where a local label is defined.
proof fn lemma_place(
    code: Seq<Insn>,
    printer: i64,
    len: i64,
    ptr: i64,
    end: int,
    label: LocalLabel,
    at: int,
)
    requires
        is_print_code(code, printer, len, ptr),
        at == 15 && label is WithAdjustedStackPtr || at == 19 && label is PopRest,
        at < end <= 28,
    ensures
        code.take(end).index_of(Insn::DefineLocal(label)) == at,
{
    reveal(saves_and_restores);
    let found = code.take(end).index_of(Insn::DefineLocal(label));
    assert(code.take(end)[at] == Insn::DefineLocal(label));
    assert(0 <= found < end && code[found] == Insn::DefineLocal(label));
    if found < 8 {
        assert(code[found] == Insn::Push(Operand::rq(kept_registers()[found])));
    } else if found < 13 {
        assert(code.subrange(8, 13)[found - 8] == code[found]);
    } else if found >= 20 {
        let i = found - 20;
        assert(code[20 + i] == Insn::Pop(kept_registers().reverse()[i]));
    }
}

/// The registers that were on the stack are still there.
proof fn lemma_still_on_stack(m: Machine, n: Machine, c: Machine)
    requires
        on_stack(m, n),
        n.rsp <= m.rsp - 64,
        forall|a: int| a >= n.rsp ==> #[trigger] (c.mem)(a) == (n.mem)(a),
    ensures
        on_stack(m, c),
{
    reveal(on_stack);
    let regs = kept_registers();
    assert forall|i: int| 0 <= i < 8 implies load(c.mem, m.rsp - 8 * (i + 1))
        == m.rq[#[trigger] regs[i] as int] by {
        lemma_load_above(n, c, m.rsp - 8 * (i + 1));
    }
}

/// Whether `c` is a machine from which popping the registers gives back what they had in `m`.
spec fn can_restore(m: Machine, c: Machine) -> bool {
    &&& c.wf()
    &&& c.next is Next
    &&& c.rsp == m.rsp - 64
    &&& on_stack(m, c)
    &&& forall|a: int| a >= m.rsp ==> #[trigger] (c.mem)(a) == (m.mem)(a)
    &&& forall|r: int|
        0 <= r < 16 && (r == rq::RBX || r == rq::RBP || r >= rq::R12) ==> #[trigger] c.rq[r]
            == m.rq[r]
}

proof fn lemma_reversed()
    ensures
        ({
            let back = kept_registers().reverse();
            &&& back.len() == 8
            &&& back[0] == rq::R11 && back[1] == rq::R10 && back[2] == rq::R9 && back[3] == rq::R8
            &&& back[4] == rq::RCX && back[5] == rq::RDX && back[6] == rq::RSI && back[7] == rq::RDI
            &&& back.no_duplicates()
        }),
{
}

/// What one of the registers has after all were popped.
proof fn lemma_restored_one(m: Machine, c: Machine, n: Machine, r: RegId)
    requires
        can_restore(m, c),
        popped(c, n, kept_registers().reverse(), 8),
        r < 16,
        r != rq::RAX,
        r != rq::RSP,
    ensures
        n.rq[r as int] == m.rq[r as int],
{
    reveal(popped);
    reveal(on_stack);
    lemma_reversed();
    let regs = kept_registers();
    let back = regs.reverse();
    assert(back.take(8) =~= back);
    if r == rq::RBX || r == rq::RBP || r >= rq::R12 {
        assert(!back.contains(r)) by {
            if back.contains(r) {
                let i = choose|i: int| 0 <= i < 8 && back[i] == r;
                assert(back[i] == r);
            }
        }
        assert(n.rq[r as int] == c.rq[r as int]);
    } else {
        let i = if r == rq::RDI {
            0int
        } else if r == rq::RSI {
            1
        } else if r == rq::RDX {
            2
        } else if r == rq::RCX {
            3
        } else {
            r - 4
        };
        assert(regs[i] == r);
        assert(back[7 - i] == r);
        assert(n.rq[back[7 - i] as int] == load(c.mem, c.rsp + 8 * (7 - i)));
        assert(load(c.mem, m.rsp - 8 * (i + 1)) == m.rq[regs[i] as int]);
    }
}

spec fn regs_popped(code: Seq<Insn>) -> bool {
    forall|i: int|
        0 <= i < 8 ==> code[20 + i] == Insn::Pop(#[trigger] kept_registers().reverse()[i])
}

/// The last part: the registers get back what they had.
proof fn lemma_print_end(m: Machine, c: Machine, code: Seq<Insn>, printer: i64, len: i64, ptr: i64)
    requires
        is_print_code(code, printer, len, ptr),
        can_restore(m, c),
    ensures
        kept(m, part(c, code, 20, 28)),
{
    let back = kept_registers().reverse();
    lemma_reversed();
    assert(regs_popped(code)) by {
        reveal(saves_and_restores);
    }
    lemma_popped(c, code, 20, back, 8);
    let n = part(c, code, 20, 28);
    assert forall|r: int| 0 <= r < 16 && r != rq::RAX && r != rq::RSP implies #[trigger] n.rq[r]
        == m.rq[r] by {
        lemma_restored_one(m, c, n, r as RegId);
    }
    reveal(popped);
}

/// From the label before the last part on.
proof fn lemma_print_rest(m: Machine, c: Machine, code: Seq<Insn>, printer: i64, len: i64, ptr: i64)
    requires
        is_print_code(code, printer, len, ptr),
        can_restore(m, c),
    ensures
        kept(m, part(c, code, 19, 28)),
{
    lemma_one(c, code, 19);
    lemma_parts(c, code, 19, 20, 28);
    lemma_print_end(m, c, code, printer, len, ptr);
}

/// Whether the call at `k` is the one that the code makes, and all is as it was after it.
pub open spec fn prints_at(
    m: Machine,
    code: Seq<Insn>,
    k: int,
    printer: i64,
    len: i64,
    ptr: i64,
) -> bool {
    let n = followed(m, code.take(k + 1), 0);
    &&& code[k] is CallReg
    &&& followed(m, code.take(k), 0).next is Next
    &&& followed(m, code, 0) == n
    &&& about_to_print(m, n, printer, len, ptr)
    &&& forall|c: Machine| #[trigger]
        back_from_call(n, c) ==> kept(m, followed(c, code, k + 1))
}

/// Whether `n` is the machine at the call that prints, `words` below where it was in `m`.
spec fn at_call(m: Machine, n: Machine, words: int, printer: i64, len: i64, ptr: i64) -> bool {
    &&& about_to_print(m, n, printer, len, ptr)
    &&& on_stack(m, n)
    &&& n.rsp == m.rsp - 8 * words
}

/// The machine at the test of the stack pointer.
proof fn lemma_prepared(m: Machine, code: Seq<Insn>, printer: i64, len: i64, ptr: i64)
    requires
        m.wf(),
        m.next is Next,
        m.rsp % 8 == 0,
        72 <= m.rsp <= u64::MAX,
        is_print_code(code, printer, len, ptr),
    ensures
        print_prepared(m, part(m, code, 0, 13), printer, len, ptr),
{
    reveal(saves_and_restores);
    lemma_print_start(m, code, printer, len, ptr);
}

/// The call with a stack pointer that is aligned.
proof fn lemma_call_aligned(m: Machine, p: Machine, printer: i64, len: i64, ptr: i64)
    requires
        m.rsp % 16 == 0,
        print_prepared(m, p, printer, len, ptr),
    ensures
        p.next is Next,
        at_call(m, p.step(Insn::CallReg(rq::RAX)), 8, printer, len, ptr),
{
    reveal(print_prepared);
    lemma_still_on_stack(m, p, p.step(Insn::CallReg(rq::RAX)));
}

/// The call with a stack pointer that has to be moved.
proof fn lemma_call_adjusted(m: Machine, p: Machine, printer: i64, len: i64, ptr: i64)
    requires
        m.rsp % 16 == 8,
        print_prepared(m, p, printer, len, ptr),
    ensures
        p.next == Control::JumpLocal(LocalLabel::WithAdjustedStackPtr),
        ({
            let q = (Machine { next: Control::Next, ..p }).step(Insn::Push(Operand::Imm(1)));
            &&& q.next is Next
            &&& at_call(m, q.step(Insn::CallReg(rq::RAX)), 9, printer, len, ptr)
        }),
{
    reveal(print_prepared);
    let q = (Machine { next: Control::Next, ..p }).step(Insn::Push(Operand::Imm(1)));
    lemma_still_on_stack(m, p, q.step(Insn::CallReg(rq::RAX)));
}

proof fn lemma_aligned_call(m: Machine, code: Seq<Insn>, printer: i64, len: i64, ptr: i64)
    requires
        m.wf(),
        m.next is Next,
        m.rsp % 16 == 0,
        72 <= m.rsp <= u64::MAX,
        is_print_code(code, printer, len, ptr),
    ensures
        followed(m, code.take(13), 0).next is Next,
        followed(m, code, 0) == followed(m, code.take(14), 0),
        at_call(m, followed(m, code.take(14), 0), 8, printer, len, ptr),
{
    assert(code.take(28) =~= code);
    lemma_prepared(m, code, printer, len, ptr);
    lemma_call_aligned(m, part(m, code, 0, 13), printer, len, ptr);
    lemma_followed(m, code, 0, 13);
    lemma_one_more(m, code, 13);
    lemma_followed(m, code, 0, 14);
    lemma_parts(m, code, 0, 14, 28);
    lemma_followed(m, code, 0, 28);
}

/// What a machine that is back from the call can restore.
proof fn lemma_back(m: Machine, n: Machine, c: Machine, words: int, d: Machine)
    requires
        exists|printer: i64, len: i64, ptr: i64| at_call(m, n, words, printer, len, ptr),
        words >= 8,
        back_from_call(n, c),
        d.wf(),
        d.next is Next,
        d.rsp == m.rsp - 64,
        d.mem == c.mem,
        forall|r: int|
            0 <= r < 16 && (r == rq::RBX || r == rq::RBP || r >= rq::R12) ==> #[trigger] d.rq[r]
                == c.rq[r],
    ensures
        can_restore(m, d),
{
    lemma_still_on_stack(m, n, d);
}

/// What comes after the call.
proof fn lemma_aligned_back(
    m: Machine,
    n: Machine,
    c: Machine,
    code: Seq<Insn>,
    printer: i64,
    len: i64,
    ptr: i64,
)
    requires
        at_call(m, n, 8, printer, len, ptr),
        back_from_call(n, c),
        is_print_code(code, printer, len, ptr),
    ensures
        kept(m, followed(c, code, 14)),
{
    assert(code.take(28) =~= code);
    lemma_back(m, n, c, 8, c);
    lemma_one(c, code, 14);
    lemma_parts(c, code, 14, 15, 28);
    lemma_place(code, printer, len, ptr, 28, LocalLabel::PopRest, 19);
    lemma_followed_jump(c, code, 14, 28, LocalLabel::PopRest, 19);
    assert((Machine { next: Control::Next, ..part(c, code, 14, 28) }) == c);
    lemma_print_rest(m, c, code, printer, len, ptr);
}

proof fn lemma_adjusted_call(m: Machine, code: Seq<Insn>, printer: i64, len: i64, ptr: i64)
    requires
        m.wf(),
        m.next is Next,
        m.rsp % 16 == 8,
        72 <= m.rsp <= u64::MAX,
        is_print_code(code, printer, len, ptr),
    ensures
        followed(m, code.take(17), 0).next is Next,
        followed(m, code, 0) == followed(m, code.take(18), 0),
        at_call(m, followed(m, code.take(18), 0), 9, printer, len, ptr),
{
    assert(code.take(28) =~= code);
    lemma_prepared(m, code, printer, len, ptr);
    let n13 = part(m, code, 0, 13);
    lemma_call_adjusted(m, n13, printer, len, ptr);
    let p = Machine { next: Control::Next, ..n13 };
    let q = p.step(code[16]);
    lemma_one(p, code, 15);
    lemma_one(p, code, 16);
    lemma_parts(p, code, 15, 16, 17);
    lemma_one(q, code, 17);
    lemma_parts(p, code, 15, 17, 18);
    lemma_parts(p, code, 15, 18, 28);
    lemma_jumped(m, code, printer, len, ptr, 17);
    lemma_jumped(m, code, printer, len, ptr, 18);
    lemma_jumped(m, code, printer, len, ptr, 28);
}

/// Following the jump to the code that moves the stack pointer.
proof fn lemma_jumped(m: Machine, code: Seq<Insn>, printer: i64, len: i64, ptr: i64, end: int)
    requires
        is_print_code(code, printer, len, ptr),
        15 < end <= 28,
        part(m, code, 0, 13).next == Control::JumpLocal(LocalLabel::WithAdjustedStackPtr),
    ensures
        followed(m, code.take(end), 0) == part(
            Machine { next: Control::Next, ..part(m, code, 0, 13) },
            code,
            15,
            end,
        ),
{
    lemma_parts(m, code, 0, 13, end);
    lemma_place(code, printer, len, ptr, end, LocalLabel::WithAdjustedStackPtr, 15);
    lemma_followed_jump(m, code, 0, end, LocalLabel::WithAdjustedStackPtr, 15);
}

/// What comes after that call.
proof fn lemma_adjusted_back(
    m: Machine,
    n: Machine,
    c: Machine,
    code: Seq<Insn>,
    printer: i64,
    len: i64,
    ptr: i64,
)
    requires
        at_call(m, n, 9, printer, len, ptr),
        back_from_call(n, c),
        is_print_code(code, printer, len, ptr),
    ensures
        kept(m, followed(c, code, 18)),
{
    assert(code.take(28) =~= code);
    let d = c.step(code[18]);
    lemma_back(m, n, c, 9, d);
    lemma_one(c, code, 18);
    lemma_parts(c, code, 18, 19, 28);
    lemma_print_rest(m, d, code, printer, len, ptr);
    lemma_followed(c, code, 18, 28);
}

/// The code that prints a message calls the function at `printer` with the arguments `len` and
/// `ptr`, with an aligned stack pointer whether or not it was aligned before, and with all
/// registers that the callee may change saved: after it they are as they were, and so are the
/// stack pointer and what is on the stack. Of `rax` and the vector registers this does not hold.
pub proof fn printing(m: Machine, printer: i64, len: i64, ptr: i64)
    requires
        m.wf(),
        m.next is Next,
        m.rsp % 8 == 0,
        72 <= m.rsp <= u64::MAX,
    ensures
        exists|k: int|
            #![trigger prints_at(m, print_code(printer, len, ptr), k, printer, len, ptr)]
            0 <= k < print_code(printer, len, ptr).len() && prints_at(
                m,
                print_code(printer, len, ptr),
                k,
                printer,
                len,
                ptr,
            ),
{
    lemma_print_code(printer, len, ptr);
    let code = print_code(printer, len, ptr);
    let k = if m.rsp % 16 == 0 {
        13int
    } else {
        17
    };
    if m.rsp % 16 == 0 {
        lemma_aligned_call(m, code, printer, len, ptr);
    } else {
        lemma_adjusted_call(m, code, printer, len, ptr);
    }
    let n = followed(m, code.take(k + 1), 0);
    assert forall|c: Machine| #[trigger] back_from_call(n, c) implies kept(
        m,
        followed(c, code, k + 1),
    ) by {
        if m.rsp % 16 == 0 {
            lemma_aligned_back(m, n, c, code, printer, len, ptr);
        } else {
            lemma_adjusted_back(m, n, c, code, printer, len, ptr);
        }
    }
    assert(prints_at(m, code, k, printer, len, ptr));
}

} // verus!
