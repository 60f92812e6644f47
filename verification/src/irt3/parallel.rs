//! Calls pass all their arguments at once.
use super::inline_functions::{
    conflicts, overwrites, passed, slot, staged, without_offsets, SlotsModel,
};
use super::inline_trivial_loops::{transferred, LoopParameter};
use super::inline_variables::mentions;
use super::ir::{IRExpr, InstModel, SyntheticFunctionId, VariableId};
use crate::numbers::Numbers;
use vstd::prelude::*;

verus! {

/// Whether expressions have a meaning that depends only on the variables that they
/// read, and for a variable is what it holds.
pub open spec fn is_meaning(
    meaning: spec_fn(IRExpr, spec_fn(VariableId) -> int) -> int,
) -> bool {
    &&& forall|v: VariableId, store: spec_fn(VariableId) -> int| #[trigger]
        meaning(IRExpr::Variable(v), store) == store(v)
    &&& forall|
        expr: IRExpr,
        a: spec_fn(VariableId) -> int,
        b: spec_fn(VariableId) -> int,
    |
        (forall|v: VariableId| mentions(
            expr,
            v,
        ) ==> #[trigger] a(v) == b(v)) ==> #[trigger] meaning(
            expr,
            a,
        ) == #[trigger] meaning(expr, b)
}

/// What the variables hold after one is assigned.
pub open spec fn assigned(
    store: spec_fn(VariableId) -> int,
    variable: VariableId,
    value: int,
) -> spec_fn(VariableId) -> int {
    |v: VariableId|
        if v == variable {
            value
        } else {
            store(v)
        }
}

/// What the variables hold after assignments in their order.
pub open spec fn after(
    list: Seq<InstModel>,
    store: spec_fn(VariableId) -> int,
    meaning: spec_fn(IRExpr, spec_fn(VariableId) -> int) -> int,
) -> spec_fn(VariableId) -> int
    decreases list.len(),
{
    if list.len() == 0 {
        store
    } else {
        let before = after(list.drop_last(), store, meaning);
        match list.last() {
            InstModel::AssignVariable { variable, value } => assigned(
                before,
                variable,
                meaning(value, before),
            ),
            _ => before,
        }
    }
}

proof fn lemma_after_push(
    list: Seq<InstModel>,
    variable: VariableId,
    value: IRExpr,
    store: spec_fn(VariableId) -> int,
    meaning: spec_fn(IRExpr, spec_fn(VariableId) -> int) -> int,
)
    ensures
        ({
            let before = after(list, store, meaning);
            after(list.push(InstModel::AssignVariable { variable, value }), store, meaning)
                == assigned(before, variable, meaning(value, before))
        }),
{
    let item = InstModel::AssignVariable { variable, value };
    assert(list.push(item).drop_last() =~= list);
}

proof fn lemma_after_joined(
    first: Seq<InstModel>,
    second: Seq<InstModel>,
    store: spec_fn(VariableId) -> int,
    meaning: spec_fn(IRExpr, spec_fn(VariableId) -> int) -> int,
)
    ensures
        after(first + second, store, meaning) == after(
            second,
            after(first, store, meaning),
            meaning,
        ),
    decreases second.len(),
{
    if second.len() == 0 {
        assert(first + second =~= first);
    } else {
        assert((first + second).drop_last() =~= first + second.drop_last());
        lemma_after_joined(first, second.drop_last(), store, meaning);
    }
}

/// The assignments of values to variables.
pub open spec fn assignments_of(list: Seq<(VariableId, IRExpr)>) -> Seq<InstModel> {
    list.map_values(
        |a: (VariableId, IRExpr)| InstModel::AssignVariable { variable: a.0, value: a.1 },
    )
}

/// Whether no variable is assigned twice.
pub open spec fn distinct_targets(list: Seq<(VariableId, IRExpr)>) -> bool {
    forall|i: int, j: int|
        0 <= i < j < list.len() ==> (#[trigger] list[i]).0 != (#[trigger] list[j]).0
}

/// Whether the variables hold, after the assignments, what the values were before
/// them all, and others, except those from a number on, what they held.
pub open spec fn at_once(
    list: Seq<(VariableId, IRExpr)>,
    before: spec_fn(VariableId) -> int,
    result: spec_fn(VariableId) -> int,
    meaning: spec_fn(IRExpr, spec_fn(VariableId) -> int) -> int,
    next: usize,
) -> bool {
    &&& forall|i: int|
        0 <= i < list.len() ==> result((#[trigger] list[i]).0) == meaning(list[i].1, before)
    &&& forall|v: VariableId|
        v.id < next && (forall|i: int| 0 <= i < list.len() ==> (#[trigger] list[i]).0 != v)
            ==> #[trigger] result(v) == before(v)
}

/// Whether the assignments speak only of variables below a number.
pub open spec fn speak_below(list: Seq<(VariableId, IRExpr)>, next: usize) -> bool {
    &&& forall|i: int| 0 <= i < list.len() ==> (#[trigger] list[i]).0.id < next
    &&& forall|i: int, v: VariableId|
        0 <= i < list.len() && #[trigger] mentions(list[i].1, v) ==> v.id < next
}

/// Assignments in their order, of which none reads what another one changes.
proof fn lemma_in_order(
    list: Seq<(VariableId, IRExpr)>,
    store: spec_fn(VariableId) -> int,
    meaning: spec_fn(IRExpr, spec_fn(VariableId) -> int) -> int,
    count: int,
)
    requires
        is_meaning(meaning),
        distinct_targets(list),
        0 <= count <= list.len(),
        forall|i: int, j: int|
            0 <= i < list.len() && 0 <= j < list.len() && i != j ==> !#[trigger] mentions(
                list[i].1,
                list[j].0,
            ),
    ensures
        ({
            let result = after(assignments_of(list.subrange(0, count)), store, meaning);
            &&& forall|i: int|
                0 <= i < count ==> result((#[trigger] list[i]).0) == meaning(list[i].1, store)
            &&& forall|v: VariableId|
                (forall|i: int| 0 <= i < count ==> (#[trigger] list[i]).0 != v)
                    ==> #[trigger] result(v) == store(v)
        }),
    decreases count,
{
    let taken = list.subrange(0, count);
    if count == 0 {
        assert(assignments_of(taken) =~= Seq::empty());
    } else {
        lemma_in_order(list, store, meaning, count - 1);
        let shorter = list.subrange(0, count - 1);
        let (variable, value) = list[count - 1];
        let before = after(assignments_of(shorter), store, meaning);
        assert(assignments_of(taken) =~= assignments_of(shorter).push(
            InstModel::AssignVariable { variable, value },
        ));
        lemma_after_push(assignments_of(shorter), variable, value, store, meaning);
        assert forall|v: VariableId| mentions(
            value,
            v,
        ) implies #[trigger] before(v) == store(v) by {
            assert forall|i: int| 0 <= i < count - 1 implies (#[trigger] list[i]).0 != v by {
                assert(!mentions(list[count - 1].1, list[i].0));
            }
        }
        assert(meaning(value, before) == meaning(value, store));
        let result = after(assignments_of(taken), store, meaning);
        assert(result == assigned(before, variable, meaning(value, store)));
        assert forall|i: int| 0 <= i < count implies result((#[trigger] list[i]).0) == meaning(
            list[i].1,
            store,
        ) by {
            if i < count - 1 {
                assert(list[i].0 != list[count - 1].0);
            }
        }
        assert forall|v: VariableId|
            (forall|i: int| 0 <= i < count ==> (#[trigger] list[i]).0 != v) implies #[trigger] result(
        v) == store(v) by {
            assert(list[count - 1].0 != v);
            assert(before(v) == store(v));
        }
    }
}

/// Values put into temporaries first, and then into the variables.
proof fn lemma_staged(
    list: Seq<(VariableId, IRExpr)>,
    temporaries: Seq<VariableId>,
    store: spec_fn(VariableId) -> int,
    meaning: spec_fn(IRExpr, spec_fn(VariableId) -> int) -> int,
    next: usize,
)
    requires
        is_meaning(meaning),
        distinct_targets(list),
        speak_below(list, next),
        temporaries.len() == list.len(),
        forall|i: int| 0 <= i < list.len() ==> (#[trigger] temporaries[i]).id >= next,
        forall|i: int, j: int|
            0 <= i < j < list.len() ==> #[trigger] temporaries[i] != #[trigger] temporaries[j],
    ensures
        ({
            let first = Seq::new(list.len(), |i: int| (temporaries[i], list[i].1));
            let second = Seq::new(
                list.len(),
                |i: int| (list[i].0, IRExpr::Variable(temporaries[i])),
            );
            at_once(
                list,
                store,
                after(assignments_of(first) + assignments_of(second), store, meaning),
                meaning,
                next,
            )
        }),
{
    let first = Seq::new(list.len(), |i: int| (temporaries[i], list[i].1));
    let second = Seq::new(list.len(), |i: int| (list[i].0, IRExpr::Variable(temporaries[i])));
    assert forall|i: int, j: int|
        0 <= i < first.len() && 0 <= j < first.len() && i != j implies !#[trigger] mentions(
        first[i].1,
        first[j].0,
    ) by {
        assert(first[i].1 == list[i].1);
        assert(temporaries[j].id >= next);
        if mentions(list[i].1, temporaries[j]) {
            assert(temporaries[j].id < next);
        }
    }
    assert forall|i: int, j: int| 0 <= i < j < first.len() implies (#[trigger] first[i]).0 != (
    #[trigger] first[j]).0 by {
        assert(temporaries[i] != temporaries[j]);
    }
    lemma_in_order(first, store, meaning, first.len() as int);
    assert(first.subrange(0, first.len() as int) =~= first);
    let middle = after(assignments_of(first), store, meaning);
    assert forall|i: int, j: int|
        0 <= i < second.len() && 0 <= j < second.len() && i != j implies !#[trigger] mentions(
        second[i].1,
        second[j].0,
    ) by {
        assert(temporaries[i].id >= next);
        assert(list[j].0.id < next);
    }
    assert forall|i: int, j: int| 0 <= i < j < second.len() implies (#[trigger] second[i]).0 != (
    #[trigger] second[j]).0 by {
        assert(list[i].0 != list[j].0);
    }
    lemma_in_order(second, middle, meaning, second.len() as int);
    assert(second.subrange(0, second.len() as int) =~= second);
    lemma_after_joined(assignments_of(first), assignments_of(second), store, meaning);
    let result = after(assignments_of(first) + assignments_of(second), store, meaning);
    assert forall|i: int| 0 <= i < list.len() implies result((#[trigger] list[i]).0) == meaning(
        list[i].1,
        store,
    ) by {
        assert(second[i].0 == list[i].0);
        assert(result(second[i].0) == meaning(second[i].1, middle));
        assert(meaning(IRExpr::Variable(temporaries[i]), middle) == middle(temporaries[i]));
        assert(first[i].0 == temporaries[i]);
    }
    assert forall|v: VariableId|
        v.id < next && (forall|i: int| 0 <= i < list.len() ==> (#[trigger] list[i]).0
            != v) implies #[trigger] result(v) == store(v) by {
        assert forall|i: int| 0 <= i < second.len() implies (#[trigger] second[i]).0 != v by {
            assert(list[i].0 != v);
        }
        assert(result(v) == middle(v));
        assert forall|i: int| 0 <= i < first.len() implies (#[trigger] first[i]).0 != v by {
            assert(temporaries[i].id >= next);
        }
        assert(middle(v) == store(v));
    }
}

pub open spec fn without_sizes(assignments: Seq<(VariableId, usize, IRExpr)>) -> Seq<
    (VariableId, IRExpr),
> {
    assignments.map_values(|a: (VariableId, usize, IRExpr)| (a.0, a.2))
}

proof fn lemma_staged_parts(
    slots: SlotsModel,
    offset: usize,
    assignments: Seq<(VariableId, usize, IRExpr)>,
)
    requires
        slots.numbers.next + assignments.len() <= usize::MAX,
    ensures
        ({
            let made = staged(slots, offset, assignments);
            &&& made.0.numbers.next == slots.numbers.next + assignments.len()
            &&& made.1.len() == assignments.len()
            &&& made.2.len() == assignments.len()
            &&& forall|i: int|
                0 <= i < assignments.len() ==> #[trigger] made.1[i] == (
                    offset,
                    InstModel::AssignVariable {
                        variable: slot((slots.numbers.next + i) as usize),
                        value: assignments[i].2,
                    },
                )
            &&& forall|i: int|
                0 <= i < assignments.len() ==> #[trigger] made.2[i] == (
                    assignments[i].0,
                    assignments[i].1,
                    IRExpr::Variable(slot((slots.numbers.next + i) as usize)),
                )
        }),
    decreases assignments.len(),
{
    if assignments.len() > 0 {
        lemma_staged_parts(slots, offset, assignments.drop_last());
    }
}

/// A call passes all its arguments at once: every value is that before the slots of
/// the parameters change, as when two of them are exchanged.
pub proof fn law_arguments_are_passed_at_once(
    slots: SlotsModel,
    offset: usize,
    assignments: Seq<(VariableId, usize, IRExpr)>,
    store: spec_fn(VariableId) -> int,
    meaning: spec_fn(IRExpr, spec_fn(VariableId) -> int) -> int,
)
    requires
        is_meaning(meaning),
        distinct_targets(without_sizes(assignments)),
        speak_below(without_sizes(assignments), slots.numbers.next),
        slots.numbers.next + assignments.len() <= usize::MAX,
    ensures
        at_once(
            without_sizes(assignments),
            store,
            after(without_offsets(passed(slots, offset, assignments).1), store, meaning),
            meaning,
            slots.numbers.next,
        ),
{
    let list = without_sizes(assignments);
    let next = slots.numbers.next;
    let out = without_offsets(passed(slots, offset, assignments).1);
    if conflicts(assignments) {
        let made = staged(slots, offset, assignments);
        let temporaries = Seq::new(list.len(), |i: int| slot((next + i) as usize));
        let first = Seq::new(list.len(), |i: int| (temporaries[i], list[i].1));
        let second = Seq::new(list.len(), |i: int| (list[i].0, IRExpr::Variable(temporaries[i])));
        lemma_staged_parts(slots, offset, assignments);
        lemma_staged(list, temporaries, store, meaning, next);
        assert(out =~= assignments_of(first) + assignments_of(second));
    } else {
        assert forall|i: int, j: int|
            0 <= i < list.len() && 0 <= j < list.len() && i != j implies !#[trigger] mentions(
            list[i].1,
            list[j].0,
        ) by {
            assert(list[i].0 != list[j].0);
            assert(!overwrites(assignments, i, j));
        }
        lemma_in_order(list, store, meaning, list.len() as int);
        assert(list.subrange(0, list.len() as int) =~= list);
        assert(out =~= assignments_of(list));
    }
}

/// What a self-call assigns to the parameters.
pub open spec fn next_round(
    arguments: Seq<IRExpr>,
    parameters: Seq<LoopParameter>,
    count: int,
) -> Seq<(VariableId, IRExpr)>
    decreases count,
{
    if count <= 0 {
        Seq::empty()
    } else {
        let before = next_round(arguments, parameters, count - 1);
        if arguments[count - 1] == IRExpr::Variable(parameters[count - 1].variable) {
            before
        } else {
            before.push((parameters[count - 1].variable, arguments[count - 1]))
        }
    }
}

proof fn lemma_transfer_parts(
    arguments: Seq<IRExpr>,
    id: SyntheticFunctionId,
    parameters: Seq<LoopParameter>,
    numbers: Numbers,
    count: int,
)
    requires
        0 <= count <= arguments.len(),
        count <= parameters.len(),
        numbers.next + count <= usize::MAX,
    ensures
        ({
            let made = transferred(arguments, id, parameters, numbers, count);
            let list = next_round(arguments, parameters, count);
            &&& list.len() <= count
            &&& made.numbers.next == numbers.next + list.len()
            &&& made.staged == assignments_of(
                Seq::new(
                    list.len(),
                    |i: int|
                        (VariableId { owner: id, id: (numbers.next + i) as usize }, list[i].1),
                ),
            )
            &&& made.updates == assignments_of(
                Seq::new(
                    list.len(),
                    |i: int|
                        (
                            list[i].0,
                            IRExpr::Variable(
                                VariableId { owner: id, id: (numbers.next + i) as usize },
                            ),
                        ),
                ),
            )
        }),
    decreases count,
{
    let made = transferred(arguments, id, parameters, numbers, count);
    let list = next_round(arguments, parameters, count);
    let first = Seq::new(
        list.len(),
        |i: int| (VariableId { owner: id, id: (numbers.next + i) as usize }, list[i].1),
    );
    let second = Seq::new(
        list.len(),
        |i: int|
            (
                list[i].0,
                IRExpr::Variable(VariableId { owner: id, id: (numbers.next + i) as usize }),
            ),
    );
    if count > 0 {
        lemma_transfer_parts(arguments, id, parameters, numbers, count - 1);
    }
    assert(made.staged =~= assignments_of(first));
    assert(made.updates =~= assignments_of(second));
}

/// The next round of a loop begins with what the arguments of the self-call were
/// before any parameter changes.
pub proof fn law_rounds_begin_at_once(
    arguments: Seq<IRExpr>,
    id: SyntheticFunctionId,
    parameters: Seq<LoopParameter>,
    numbers: Numbers,
    count: int,
    store: spec_fn(VariableId) -> int,
    meaning: spec_fn(IRExpr, spec_fn(VariableId) -> int) -> int,
)
    requires
        is_meaning(meaning),
        0 <= count <= arguments.len(),
        count <= parameters.len(),
        numbers.next + count <= usize::MAX,
        distinct_targets(next_round(arguments, parameters, count)),
        speak_below(next_round(arguments, parameters, count), numbers.next),
    ensures
        ({
            let made = transferred(arguments, id, parameters, numbers, count);
            at_once(
                next_round(arguments, parameters, count),
                store,
                after(made.staged + made.updates, store, meaning),
                meaning,
                numbers.next,
            )
        }),
{
    let list = next_round(arguments, parameters, count);
    let temporaries = Seq::new(
        list.len(),
        |i: int| VariableId { owner: id, id: (numbers.next + i) as usize },
    );
    lemma_transfer_parts(arguments, id, parameters, numbers, count);
    lemma_staged(list, temporaries, store, meaning, numbers.next);
    let made = transferred(arguments, id, parameters, numbers, count);
    let first = Seq::new(list.len(), |i: int| (temporaries[i], list[i].1));
    let second = Seq::new(list.len(), |i: int| (list[i].0, IRExpr::Variable(temporaries[i])));
    assert(made.staged =~= assignments_of(first));
    assert(made.updates =~= assignments_of(second));
}

} // verus!
