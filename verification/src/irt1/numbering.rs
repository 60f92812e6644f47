//! Which function an operation starts, however often it is asked for.
use super::builder::{
    continued, empty_function, expr_of, first_at, flags_of, is_entry, lemma_unstarted_update,
    local_index, no_partitions, scanned, started, target_address, targeted, unstarted,
    Partitions, Source,
};
use super::ir::{FunctionModel, InstModel};
use crate::irt0::ir as t0;
use vstd::prelude::*;

verus! {

/// The address of the function that starts at an operation.
pub open spec fn entry_of(source: Source, start: int) -> usize {
    if start == 0 {
        source.entry_address
    } else {
        source.operations[start].0
    }
}

/// Whether each start names a function that is there and has its address.
pub open spec fn is_numbered(source: Source, made: Partitions) -> bool {
    &&& made.starts.len() == source.operations.len()
    &&& forall|i: int|
        0 <= i < made.starts.len() && (#[trigger] made.starts[i]) is Some ==> {
            &&& made.starts[i]->0 < made.functions.len()
            &&& made.functions[made.starts[i]->0 as int].entry_offset == entry_of(source, i)
        }
}

/// How many functions there are at most, once every operation starts one: each can
/// need another for a conditional assignment.
pub open spec fn most_functions(made: Partitions) -> nat {
    made.functions.len() + 2 * unstarted(made.starts)
}

/// Whether the starts and the addresses of the functions stay as they were.
pub open spec fn is_kept(before: Partitions, after: Partitions) -> bool {
    &&& after.starts.len() == before.starts.len()
    &&& after.functions.len() >= before.functions.len()
    &&& forall|i: int|
        0 <= i < before.starts.len() && (#[trigger] before.starts[i]) is Some ==> after.starts[i]
            == before.starts[i]
    &&& forall|i: int|
        0 <= i < before.functions.len() ==> (#[trigger] after.functions[i]).entry_offset
            == before.functions[i].entry_offset
}

/// What two steps keep, both together keep.
pub proof fn lemma_kept_on(first: Partitions, second: Partitions, third: Partitions)
    requires
        is_kept(first, second),
        is_kept(second, third),
    ensures
        is_kept(first, third),
{
    assert forall|i: int|
        0 <= i < first.starts.len() && (
        #[trigger] first.starts[i]) is Some implies third.starts[i] == first.starts[i] by {
        assert(second.starts[i] == first.starts[i]);
    }
    assert forall|i: int| 0 <= i < first.functions.len() implies (
    #[trigger] third.functions[i]).entry_offset == first.functions[i].entry_offset by {
        assert(second.functions[i].entry_offset == first.functions[i].entry_offset);
    }
}

proof fn lemma_first_at(source: Seq<(usize, t0::IRInst)>, offset: usize, from: int)
    requires
        0 <= from,
    ensures
        first_at(source, offset, from) >= from,
    decreases source.len() - from,
{
    if from < source.len() && source[from].0 < offset {
        lemma_first_at(source, offset, from + 1);
    }
}

/// A function that is reserved for a start has a number of its own.
pub proof fn lemma_reserved(source: Source, made: Partitions, start: int)
    requires
        is_numbered(source, made),
        made.functions.len() <= usize::MAX,
        0 <= start < made.starts.len(),
        made.starts[start] is None,
    ensures
        ({
            let reserved = Partitions {
                starts: made.starts.update(start, Some(made.functions.len() as usize)),
                functions: made.functions.push(
                    empty_function(entry_of(source, start), Seq::empty()),
                ),
            };
            &&& is_kept(made, reserved)
            &&& is_numbered(source, reserved)
        }),
{
    let id = made.functions.len() as usize;
    let reserved = Partitions {
        starts: made.starts.update(start, Some(id)),
        functions: made.functions.push(empty_function(entry_of(source, start), Seq::empty())),
    };
    assert forall|i: int|
        0 <= i < reserved.starts.len() && (
        #[trigger] reserved.starts[i]) is Some implies reserved.starts[i]->0
        < reserved.functions.len()
        && reserved.functions[reserved.starts[i]->0 as int].entry_offset == entry_of(
        source,
        i,
    ) by {
        if i != start {
            assert(made.starts[i] is Some);
        }
    }
}

/// A function that gets its body keeps its number and its address.
pub proof fn lemma_body_filled(
    source: Source,
    made: Partitions,
    id: int,
    body: Seq<(usize, InstModel)>,
)
    requires
        is_numbered(source, made),
        0 <= id < made.functions.len(),
    ensures
        ({
            let after = Partitions {
                starts: made.starts,
                functions: made.functions.update(
                    id,
                    FunctionModel { body, ..made.functions[id] },
                ),
            };
            &&& is_kept(made, after)
            &&& is_numbered(source, after)
        }),
{
    let after = Partitions {
        starts: made.starts,
        functions: made.functions.update(id, FunctionModel { body, ..made.functions[id] }),
    };
    assert forall|i: int|
        0 <= i < after.starts.len() && (
        #[trigger] after.starts[i]) is Some implies after.starts[i]->0 < after.functions.len()
        && after.functions[after.starts[i]->0 as int].entry_offset == entry_of(source, i) by {
        assert(made.starts[i] is Some);
    }
}

proof fn lemma_started(source: Source, made: Partitions, start: int, fuel: nat)
    requires
        is_numbered(source, made),
        most_functions(made) <= usize::MAX,
        0 <= start < source.operations.len(),
    ensures
        ({
            let (after, id) = started(source, made, start, fuel);
            &&& is_kept(made, after)
            &&& is_numbered(source, after)
            &&& most_functions(after) <= most_functions(made)
            &&& fuel > 0 || made.starts[start] is Some ==> after.starts[start] == Some(id)
        }),
    decreases fuel, 0nat,
{
    if made.starts[start] is None && fuel > 0 {
        let id = made.functions.len() as usize;
        let entry_offset = entry_of(source, start);
        let reserved = Partitions {
            starts: made.starts.update(start, Some(id)),
            functions: made.functions.push(empty_function(entry_offset, Seq::empty())),
        };
        lemma_unstarted_update(made.starts, start, id);
        assert(id == made.functions.len());
        lemma_reserved(source, made, start);
        lemma_scanned(source, reserved, start, start, Seq::empty(), (fuel - 1) as nat);
        let (middle, body) = scanned(
            source,
            reserved,
            start,
            start,
            Seq::empty(),
            (fuel - 1) as nat,
        );
        let after = started(source, made, start, fuel).0;
        assert(reserved.starts[start] == Some(id));
        assert(middle.starts[start] == Some(id));
        lemma_body_filled(source, middle, id as int, body);
        lemma_kept_on(made, reserved, middle);
        lemma_kept_on(made, middle, after);
    }
}

proof fn lemma_continued(source: Source, made: Partitions, index: int, fuel: nat)
    requires
        is_numbered(source, made),
        most_functions(made) <= usize::MAX,
        0 <= index,
    ensures
        ({
            let after = continued(source, made, index, fuel).0;
            &&& is_kept(made, after)
            &&& is_numbered(source, after)
            &&& most_functions(after) <= most_functions(made)
        }),
    decreases fuel, 1nat,
{
    if index < source.operations.len() {
        lemma_started(source, made, index, fuel);
    }
}

proof fn lemma_targeted(
    source: Source,
    made: Partitions,
    expr: t0::IRExpr,
    offset: usize,
    fuel: nat,
)
    requires
        is_numbered(source, made),
        most_functions(made) <= usize::MAX,
    ensures
        ({
            let after = targeted(source, made, expr, offset, fuel).0;
            &&& is_kept(made, after)
            &&& is_numbered(source, after)
            &&& most_functions(after) <= most_functions(made)
        }),
    decreases fuel, 1nat,
{
    match local_index(source.operations, expr, offset) {
        Some(index) => {
            let target = target_address(expr, offset)->0;
            lemma_first_at(source.operations, target, 0);
            lemma_started(source, made, index, fuel);
        },
        None => {},
    }
}

/// A function more changes no start.
pub proof fn lemma_pushed(source: Source, made: Partitions, function: FunctionModel)
    requires
        is_numbered(source, made),
    ensures
        ({
            let after = Partitions {
                starts: made.starts,
                functions: made.functions.push(function),
            };
            &&& is_kept(made, after)
            &&& is_numbered(source, after)
            &&& most_functions(after) == most_functions(made) + 1
        }),
{
}

proof fn lemma_scanned(
    source: Source,
    made: Partitions,
    start: int,
    index: int,
    body: Seq<(usize, InstModel)>,
    fuel: nat,
)
    requires
        is_numbered(source, made),
        most_functions(made) + 1 <= usize::MAX,
        0 <= index,
    ensures
        ({
            let after = scanned(source, made, start, index, body, fuel).0;
            &&& is_kept(made, after)
            &&& is_numbered(source, after)
            &&& most_functions(after) <= most_functions(made) + 1
        }),
    decreases fuel, 2 + source.operations.len() - index,
{
    let after = scanned(source, made, start, index, body, fuel).0;
    if index >= source.operations.len() {
    } else if index != start && (is_entry(source.operations, index) || made.starts[index] is Some) {
        lemma_continued(source, made, index, fuel);
    } else {
        let offset = source.operations[index].0;
        match source.operations[index].1 {
            t0::IRInst::If(condition, inner) => {
                match *inner {
                    t0::IRInst::Jmp(target) => {
                        lemma_targeted(source, made, target, offset, fuel);
                        let middle = targeted(source, made, target, offset, fuel).0;
                        lemma_continued(source, middle, index + 1, fuel);
                        lemma_kept_on(made, middle, after);
                    },
                    t0::IRInst::Asgn { dest, src } => {
                        lemma_continued(source, made, index + 1, fuel);
                        let (middle, continuation) = continued(source, made, index + 1, fuel);
                        let function = empty_function(
                            offset,
                            seq![
                                (
                                    offset,
                                    InstModel::Assign {
                                        dest: expr_of(dest),
                                        src: expr_of(src),
                                    },
                                ),
                                (offset, continuation),
                            ],
                        );
                        let more = Partitions {
                            starts: middle.starts,
                            functions: middle.functions.push(function),
                        };
                        lemma_pushed(source, middle, function);
                        lemma_continued(source, more, index + 1, fuel);
                        assert(after == continued(source, more, index + 1, fuel).0);
                        lemma_kept_on(made, middle, more);
                        lemma_kept_on(made, more, after);
                    },
                    _ => {
                        lemma_continued(source, made, index + 1, fuel);
                    },
                }
            },
            t0::IRInst::Jmp(target) => {
                lemma_targeted(source, made, target, offset, fuel);
            },
            t0::IRInst::Ret(_) => {},
            t0::IRInst::Asgn { dest, src } => {
                let next = InstModel::Assign {
                    dest: expr_of(dest),
                    src: expr_of(src),
                };
                lemma_scanned(source, made, start, index + 1, body.push((offset, next)), fuel);
            },
            t0::IRInst::SetFlagsFrom(flags, expr) => {
                let next = InstModel::SetFlagsFrom {
                    flags: flags_of(flags),
                    expr: expr_of(expr),
                };
                lemma_scanned(source, made, start, index + 1, body.push((offset, next)), fuel);
            },
            t0::IRInst::ClearFlags(flags) => {
                let next = InstModel::ClearFlags {
                    flags: flags_of(flags),
                };
                lemma_scanned(source, made, start, index + 1, body.push((offset, next)), fuel);
            },
            t0::IRInst::InvalidateFlags(flags) => {
                let next = InstModel::InvalidateFlags {
                    flags: flags_of(flags),
                };
                lemma_scanned(source, made, start, index + 1, body.push((offset, next)), fuel);
            },
        }
    }
}

/// Where nothing is made yet, each start names its function.
pub proof fn law_nothing_made_is_numbered(source: Source)
    ensures
        is_numbered(source, no_partitions(source.operations.len())),
{
}

/// An operation starts one function: it is there, it has the address of the operation
/// or, for the first, that of the entry, and to ask for it again gives it once more
/// and changes nothing. What was started before stays as it was.
pub proof fn law_an_operation_starts_one_function(
    source: Source,
    made: Partitions,
    start: int,
    fuel: nat,
    again: nat,
)
    requires
        is_numbered(source, made),
        most_functions(made) <= usize::MAX,
        0 <= start < source.operations.len(),
        fuel > 0 || made.starts[start] is Some,
    ensures
        ({
            let (after, id) = started(source, made, start, fuel);
            &&& id < after.functions.len()
            &&& after.functions[id as int].entry_offset == entry_of(source, start)
            &&& started(source, after, start, again) == (after, id)
            &&& is_numbered(source, after)
            &&& is_kept(made, after)
        }),
{
    lemma_started(source, made, start, fuel);
    let (after, id) = started(source, made, start, fuel);
    assert(after.starts[start] == Some(id));
}

} // verus!
