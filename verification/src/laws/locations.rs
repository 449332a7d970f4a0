//! Where arguments and results are passed.

use vstd::prelude::*;

use crate::laws::arguments::{parameter_places, stacked};
use crate::location::{
    arg_loc, arg_locs_of, floats_before, ints_before, is_int, lemma_ints_before, passable_args,
    passable_rets, ret_loc, CCLoc,
};
use crate::microwasm::SignlessType;
use crate::registers::{is_scratch, rq, RegId, GPR};

verus! {

/// Each argument of a function has a place of its own. A register among the places is one that
/// the allocator hands out; a slot is not below the start of the arguments.
pub proof fn argument_places(types: Seq<SignlessType>, i: int, j: int)
    requires
        passable_args(types),
        0 <= i < j < types.len(),
    ensures
        arg_loc(types, i) != arg_loc(types, j),
        place_is_sound(arg_loc(types, i)),
        place_is_sound(arg_loc(types, j)),
{
    let n = types.len() as int;
    lemma_ints_before(types, i, i + 1);
    lemma_ints_before(types, i + 1, j);
    lemma_ints_before(types, j, j + 1);
    lemma_ints_before(types, j + 1, n);
}

/// Each result of a function has a place of its own, and all are registers that the allocator
/// hands out.
pub proof fn result_places(types: Seq<SignlessType>, i: int, j: int)
    requires
        passable_rets(types),
        0 <= i < j < types.len(),
    ensures
        ret_loc(types, i) != ret_loc(types, j),
        ret_loc(types, i) is Reg && place_is_sound(ret_loc(types, i)),
        ret_loc(types, j) is Reg && place_is_sound(ret_loc(types, j)),
{
    let n = types.len() as int;
    lemma_ints_before(types, i, i + 1);
    lemma_ints_before(types, i + 1, j);
    lemma_ints_before(types, j, j + 1);
    lemma_ints_before(types, j + 1, n);
}

/// Whether a place is a register that the allocator hands out, or a slot of the arguments.
pub open spec fn place_is_sound(loc: CCLoc) -> bool {
    match loc {
        CCLoc::Reg(gpr) => gpr.valid() && is_scratch(gpr),
        CCLoc::Stack(o) => o >= 0,
    }
}

/// How many of the types are those of integers, or of floating-point numbers.
pub open spec fn count_of(types: Seq<SignlessType>, integers: bool) -> int {
    types.filter(|ty: SignlessType| (ty is I32 || ty is I64) == integers).len() as int
}

/// The integers among the first types are counted.
proof fn lemma_count_of(types: Seq<SignlessType>, n: int)
    requires
        0 <= n <= types.len(),
    ensures
        ints_before(types, n) == count_of(types.take(n), true),
        floats_before(types, n) == count_of(types.take(n), false),
    decreases n,
{
    reveal(Seq::filter);
    if n > 0 {
        lemma_count_of(types, n - 1);
        assert(types.take(n).drop_last() =~= types.take(n - 1));
        assert(types.take(n).last() == types[n - 1]);
    } else {
        assert(types.take(n).len() == 0);
    }
}

/// The register in which the platform's calling convention passes the integer with this number
/// after the VM context, if it passes it in one.
pub open spec fn integer_register(nth: int) -> Option<RegId> {
    if nth == 0 {
        Some(rq::RSI)
    } else if nth == 1 {
        Some(rq::RDX)
    } else if nth == 2 {
        Some(rq::RCX)
    } else if nth == 3 {
        Some(rq::R8)
    } else if nth == 4 {
        Some(rq::R9)
    } else {
        None
    }
}

/// Arguments are where the platform's calling convention has them after the VM context: the first
/// integers in its registers, the others in slots one after the other, and floating-point numbers
/// in the vector registers one after the other. Both kinds are counted apart.
pub proof fn arguments_in_order(types: Seq<SignlessType>, i: int)
    requires
        passable_args(types),
        0 <= i < types.len(),
    ensures
        ({
            let before = types.take(i);
            if types[i] is I32 || types[i] is I64 {
                match integer_register(count_of(before, true)) {
                    Some(r) => arg_loc(types, i) == CCLoc::Reg(GPR::Rq(r)),
                    None => arg_loc(types, i) is Stack && arg_loc(types, i)->Stack_0 == count_of(
                        before,
                        true,
                    ) - 5,
                }
            } else {
                arg_loc(types, i) is Reg && arg_loc(types, i)->Reg_0 is Rx && arg_loc(
                    types,
                    i,
                )->Reg_0->Rx_0 == count_of(before, false)
            }
        }),
{
    lemma_count_of(types, i);
    lemma_ints_before(types, 0, i);
    lemma_ints_before(types, i, i + 1);
    lemma_ints_before(types, i + 1, types.len() as int);
}

/// Results are where the platform's calling convention has them: integers in `rax` and `rdx`,
/// floating-point numbers in the first two vector registers.
pub proof fn results_in_order(types: Seq<SignlessType>, i: int)
    requires
        passable_rets(types),
        0 <= i < types.len(),
    ensures
        ({
            let before = types.take(i);
            if types[i] is I32 || types[i] is I64 {
                ret_loc(types, i) == CCLoc::Reg(
                    GPR::Rq(
                        if count_of(before, true) == 0 {
                            rq::RAX
                        } else {
                            rq::RDX
                        },
                    ),
                )
            } else {
                ret_loc(types, i) is Reg && ret_loc(types, i)->Reg_0 is Rx && ret_loc(
                    types,
                    i,
                )->Reg_0->Rx_0 == count_of(before, false)
            }
        }),
{
    lemma_count_of(types, i);
    lemma_ints_before(types, 0, i);
    lemma_ints_before(types, i, i + 1);
    lemma_ints_before(types, i + 1, types.len() as int);
}

/// An integer argument beyond the fifth is on the stack, in the slot whose number is how many
/// came there before it.
pub proof fn stacked_arguments(types: Seq<SignlessType>, i: int)
    requires
        0 <= i < types.len(),
        is_int(types[i]),
        5 <= ints_before(types, i),
        ints_before(types, i) - 5 <= i32::MAX,
    ensures
        arg_loc(types, i) == CCLoc::Stack((ints_before(types, i) - 5) as i32),
{
}

/// The numbers of integers and of floating-point numbers among the first parameters depend on
/// these alone, and on which of the two each is.
proof fn lemma_same_kinds(a: Seq<SignlessType>, b: Seq<SignlessType>, n: int)
    requires
        0 <= n <= a.len(),
        n <= b.len(),
        forall|i: int| 0 <= i < n ==> is_int(#[trigger] a[i]) == is_int(b[i]),
    ensures
        ints_before(a, n) == ints_before(b, n),
        floats_before(a, n) == floats_before(b, n),
    decreases n,
{
    if n > 0 {
        lemma_same_kinds(a, b, n - 1);
        assert(is_int(a[n - 1]) == is_int(b[n - 1]));
    }
}

/// Where an argument is passed does not depend on the parameters after it.
pub proof fn places_of_prefix(a: Seq<SignlessType>, b: Seq<SignlessType>)
    ensures
        arg_locs_of(a + b).take(a.len() as int) == arg_locs_of(a),
{
    let types = a + b;
    assert forall|i: int| 0 <= i < a.len() implies arg_locs_of(types)[i] == arg_locs_of(a)[i] by {
        lemma_same_kinds(types, a, i);
        assert(types[i] == a[i]);
    }
    assert(arg_locs_of(types).take(a.len() as int) =~= arg_locs_of(a));
}

/// Integers of both sizes are passed alike, and so are floating-point numbers.
pub proof fn places_by_kind(a: Seq<SignlessType>, b: Seq<SignlessType>)
    requires
        a.len() == b.len(),
        forall|i: int| 0 <= i < a.len() ==> is_int(#[trigger] a[i]) == is_int(b[i]),
    ensures
        arg_locs_of(a) == arg_locs_of(b),
{
    assert forall|i: int| 0 <= i < a.len() implies arg_locs_of(a)[i] == arg_locs_of(b)[i] by {
        lemma_same_kinds(a, b, i);
        assert(is_int(a[i]) == is_int(b[i]));
    }
    assert(arg_locs_of(a) =~= arg_locs_of(b));
}

/// How many arguments are on the stack.
proof fn lemma_stacked_arguments(types: Seq<SignlessType>, n: int)
    requires
        0 <= n <= types.len(),
    ensures
        stacked(arg_locs_of(types), n) == (if ints_before(types, n) > 5 {
            ints_before(types, n) - 5
        } else {
            0
        }),
    decreases n,
{
    if n > 0 {
        lemma_stacked_arguments(types, n - 1);
        assert(arg_locs_of(types)[n - 1] == arg_loc(types, n - 1));
    }
}

/// The places of the parameters of a function are such that arguments can be passed in them one
/// after the other: see `parameter_places`.
pub proof fn parameters_have_places(types: Seq<SignlessType>)
    requires
        passable_args(types),
    ensures
        parameter_places(arg_locs_of(types)),
{
    let locs = arg_locs_of(types);
    let n = types.len() as int;
    assert forall|j: int| 0 <= j < locs.len() implies place_is_sound(#[trigger] locs[j])
        && (locs[j] is Stack ==> locs[j]->Stack_0 == stacked(
        locs,
        j,
    )) by {
        lemma_ints_before(types, 0, j);
        lemma_ints_before(types, j, j + 1);
        lemma_ints_before(types, j + 1, n);
        lemma_stacked_arguments(types, j);
    }
    assert forall|i: int, j: int| 0 <= i < j < locs.len() implies #[trigger] locs[i]
        != #[trigger] locs[j] by {
        argument_places(types, i, j);
    }
}

} // verus!
