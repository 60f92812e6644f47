//! Infer a likely integer return before partition parameters are collected.
//! A shared RET must receive the value from all of its predecessors, even when
//! those predecessors wrote different slots in the same register alias.
use super::ir::{
    body_models, calls_within, function_models, is_linked, FunctionModel, IRExpr, IRInst, InstModel,
    Program, ProgramModel, SyntheticFunction,
};
use crate::x86::{full_number, Register, EAX, RAX};
use vstd::prelude::*;

verus! {

/// What is known of the return register at a point.
#[derive(Clone, Copy, Debug, PartialEq, Eq, Structural)]
pub enum State {
    Unreachable,
    Unknown,
    /// The last write on every path was to this alias.
    Register(Register),
}

impl State {
    /// Whether the other state allows everything that this one does.
    pub open spec fn below(self, other: State) -> bool {
        self == State::Unreachable || other == State::Unknown || self == other
    }

    /// The least state that both are below.
    pub open spec fn joined(self, other: State) -> State {
        if self == State::Unreachable {
            other
        } else if other == State::Unreachable || self == other {
            self
        } else {
            State::Unknown
        }
    }

    /// How often the state can still grow.
    pub open spec fn headroom(self) -> nat {
        match self {
            State::Unreachable => 2,
            State::Register(_) => 1,
            State::Unknown => 0,
        }
    }

    fn join(self, other: Self) -> (res: Self)
        ensures
            res == self.joined(other),
    {
        if self == State::Unreachable {
            other
        } else if other == State::Unreachable || self == other {
            self
        } else {
            State::Unknown
        }
    }
}

/// The join is the least upper bound.
pub proof fn law_join_is_least(a: State, b: State, bound: State)
    ensures
        a.below(a.joined(b)),
        b.below(a.joined(b)),
        a.below(bound) && b.below(bound) ==> a.joined(b).below(bound),
        a.joined(b) == b.joined(a),
{
}

/// The state after an instruction. A partial write alone does not establish a
/// return width.
pub open spec fn written(instr: InstModel, state: State) -> State {
    if state == State::Unreachable {
        state
    } else {
        match instr {
            InstModel::Assign { dest: IRExpr::Reg(register), .. } => if full_number(
                register.number,
            ) == RAX {
                if register.number == EAX || register.number == RAX {
                    State::Register(register)
                } else {
                    State::Unknown
                }
            } else {
                state
            },
            _ => state,
        }
    }
}

fn write(instr: &IRInst, state: State) -> (res: State)
    ensures
        res == written(instr.model(), state),
{
    if state == State::Unreachable {
        return state;
    }
    match instr {
        IRInst::Assign { dest: IRExpr::Reg(register), .. } => {
            if register.full_register().number == RAX {
                if register.number == EAX || register.number == RAX {
                    State::Register(*register)
                } else {
                    State::Unknown
                }
            } else {
                state
            }
        },
        _ => state,
    }
}

/// The state after the first `count` instructions.
pub open spec fn state_after(body: Seq<(usize, InstModel)>, count: int, state: State) -> State
    decreases count,
{
    if count <= 0 {
        state
    } else {
        written(body[count - 1].1, state_after(body, count - 1, state))
    }
}

proof fn lemma_state_after_monotone(
    body: Seq<(usize, InstModel)>,
    count: int,
    low: State,
    high: State,
)
    requires
        low.below(high),
    ensures
        state_after(body, count, low).below(state_after(body, count, high)),
    decreases count,
{
    if count > 0 {
        lemma_state_after_monotone(body, count - 1, low, high);
    }
}

/// Whether an instruction calls the function.
pub open spec fn calls(instr: InstModel, id: int) -> bool
    decreases instr,
{
    match instr {
        InstModel::CallSynthetic { function, .. } => function.id == id,
        InstModel::If { then_branch, else_branch, .. } => calls(*then_branch, id) || calls(
            *else_branch,
            id,
        ),
        _ => false,
    }
}

/// Whether the states on entry account for every call of the function.
pub open spec fn accounts_for(
    functions: Seq<FunctionModel>,
    incoming: Seq<State>,
    id: int,
) -> bool {
    forall|i: int, target: int|
        0 <= i < functions[id].body.len() && 0 <= target < functions.len() && #[trigger] calls(
            functions[id].body[i].1,
            target,
        ) ==> state_after(functions[id].body, i + 1, incoming[id]).below(incoming[target])
}

/// Whether the states on entry account for the entry and for every call.
pub open spec fn is_solution(
    functions: Seq<FunctionModel>,
    entry: int,
    incoming: Seq<State>,
) -> bool {
    &&& incoming.len() == functions.len()
    &&& incoming[entry] == State::Unknown
    &&& forall|id: int|
        0 <= id < functions.len() ==> #[trigger] accounts_for(functions, incoming, id)
}

/// Whether the first states are below the second, one by one.
pub open spec fn all_below(low: Seq<State>, high: Seq<State>) -> bool {
    forall|id: int| 0 <= id < low.len() ==> (#[trigger] low[id]).below(high[id])
}

/// Whether the states on entry are the least that account for everything.
pub open spec fn is_least_solution(
    functions: Seq<FunctionModel>,
    entry: int,
    incoming: Seq<State>,
) -> bool {
    &&& is_solution(functions, entry, incoming)
    &&& forall|other: Seq<State>| #[trigger]
        is_solution(functions, entry, other) ==> all_below(incoming, other)
}

/// There is only one least solution.
pub proof fn law_least_solution_is_unique(
    functions: Seq<FunctionModel>,
    entry: int,
    a: Seq<State>,
    b: Seq<State>,
)
    requires
        is_least_solution(functions, entry, a),
        is_least_solution(functions, entry, b),
    ensures
        a == b,
{
    assert(all_below(a, b));
    assert(all_below(b, a));
    assert forall|id: int| 0 <= id < a.len() implies a[id] == b[id] by {
        assert(a[id].below(b[id]));
        assert(b[id].below(a[id]));
    }
    assert(a =~= b);
}

/// Whether a state is below what every solution has on entry to a function.
spec fn is_lower(functions: Seq<FunctionModel>, entry: int, id: int, state: State) -> bool {
    forall|other: Seq<State>| #[trigger]
        is_solution(functions, entry, other) ==> state.below(other[id])
}

/// The greatest such state.
spec fn greatest_lower(functions: Seq<FunctionModel>, entry: int, id: int) -> State {
    if is_lower(functions, entry, id, State::Unknown) {
        State::Unknown
    } else if exists|r: Register| #[trigger] is_lower(functions, entry, id, State::Register(r)) {
        State::Register(
            choose|r: Register| #[trigger] is_lower(functions, entry, id, State::Register(r)),
        )
    } else {
        State::Unreachable
    }
}

proof fn lemma_greatest_lower(functions: Seq<FunctionModel>, entry: int, id: int, state: State)
    ensures
        is_lower(functions, entry, id, greatest_lower(functions, entry, id)),
        is_lower(functions, entry, id, state) ==> state.below(
            greatest_lower(functions, entry, id),
        ),
{
    if !is_lower(functions, entry, id, State::Unknown) {
        let some = choose|other: Seq<State>| #[trigger]
            is_solution(functions, entry, other) && !State::Unknown.below(other[id]);
        if is_lower(functions, entry, id, state) {
            assert(state.below(some[id]));
            if let State::Register(register) = state {
                assert(is_lower(functions, entry, id, State::Register(register)));
            }
        }
    }
}

/// Something least is known on entry to every function.
pub proof fn law_there_is_a_least_solution(functions: Seq<FunctionModel>, entry: int)
    requires
        0 <= entry < functions.len(),
    ensures
        exists|incoming: Seq<State>| #[trigger] is_least_solution(functions, entry, incoming),
{
    let states = Seq::new(functions.len(), |id: int| greatest_lower(functions, entry, id));
    assert(is_lower(functions, entry, entry, State::Unknown));
    assert forall|id: int| 0 <= id < functions.len() implies #[trigger] accounts_for(
        functions,
        states,
        id,
    ) by {
        let body = functions[id].body;
        assert forall|i: int, target: int|
            0 <= i < body.len() && 0 <= target < functions.len() && #[trigger] calls(
                body[i].1,
                target,
            ) implies state_after(body, i + 1, states[id]).below(states[target]) by {
            let handed = state_after(body, i + 1, states[id]);
            lemma_greatest_lower(functions, entry, id, handed);
            assert forall|other: Seq<State>| #[trigger]
                is_solution(functions, entry, other) implies handed.below(other[target]) by {
                lemma_state_after_monotone(body, i + 1, states[id], other[id]);
                assert(accounts_for(functions, other, id));
                assert(state_after(body, i + 1, other[id]).below(other[target]));
            }
            lemma_greatest_lower(functions, entry, target, handed);
        }
    }
    assert(is_solution(functions, entry, states));
    assert forall|other: Seq<State>| #[trigger]
        is_solution(functions, entry, other) implies all_below(states, other) by {
        assert forall|id: int| 0 <= id < states.len() implies (#[trigger] states[id]).below(
            other[id],
        ) by {
            lemma_greatest_lower(functions, entry, id, State::Unknown);
        }
    }
    assert(is_least_solution(functions, entry, states));
}

/// The instruction with the register named that a return hands back.
pub open spec fn with_return(instr: InstModel, state: State) -> InstModel
    decreases instr,
{
    match instr {
        InstModel::Return(None) => match state {
            State::Register(register) => InstModel::Return(Some(IRExpr::Reg(register))),
            _ => instr,
        },
        InstModel::If { condition, then_branch, else_branch } => InstModel::If {
            condition,
            then_branch: Box::new(with_return(*then_branch, state)),
            else_branch: Box::new(with_return(*else_branch, state)),
        },
        _ => instr,
    }
}

pub open spec fn body_with_returns(body: Seq<(usize, InstModel)>, state: State) -> Seq<
    (usize, InstModel),
> {
    Seq::new(
        body.len(),
        |i: int| (body[i].0, with_return(body[i].1, state_after(body, i + 1, state))),
    )
}

pub open spec fn functions_with_returns(
    functions: Seq<FunctionModel>,
    incoming: Seq<State>,
) -> Seq<FunctionModel> {
    Seq::new(
        functions.len(),
        |i: int|
            FunctionModel {
                body: body_with_returns(functions[i].body, incoming[i]),
                ..functions[i]
            },
    )
}

/// Whether the second program is the first with its returns named.
pub open spec fn returns_named(before: ProgramModel, after: ProgramModel) -> bool {
    match before.entry {
        None => after == before,
        Some(entry) => exists|incoming: Seq<State>| #[trigger]
            is_least_solution(before.functions, entry.id as int, incoming) && after == (
            ProgramModel {
                functions: functions_with_returns(before.functions, incoming),
                ..before
            }),
    }
}

/// Collects the functions that an instruction calls.
fn transfers(instr: &IRInst, targets: &mut Vec<usize>, Ghost(count): Ghost<int>)
    requires
        calls_within(instr.model(), count),
        forall|k: int| 0 <= k < old(targets)@.len() ==> (#[trigger] old(targets)@[k]) < count,
    ensures
        forall|k: int| 0 <= k < final(targets)@.len() ==> (#[trigger] final(targets)@[k]) < count,
        forall|id: usize| #[trigger]
            final(targets)@.contains(id) <==> old(targets)@.contains(id) || calls(
                instr.model(),
                id as int,
            ),
    decreases instr,
{
    match instr {
        IRInst::CallSynthetic { function, .. } => {
            targets.push(function.id);
            proof {
                let before = old(targets)@;
                let after = targets@;
                assert(after[before.len() as int] == function.id);
                assert forall|id: usize| #[trigger] after.contains(id) <==> before.contains(id)
                    || calls(instr.model(), id as int) by {
                    if before.contains(id) {
                        let k = choose|k: int| 0 <= k < before.len() && before[k] == id;
                        assert(after[k] == id);
                    }
                    if after.contains(id) && id != function.id {
                        let k = choose|k: int| 0 <= k < after.len() && after[k] == id;
                        assert(before[k] == id);
                    }
                }
            }
        },
        IRInst::If { then_branch, else_branch, .. } => {
            transfers(then_branch, targets, Ghost(count));
            transfers(else_branch, targets, Ghost(count));
        },
        _ => {},
    }
}

/// The sum of what every state can still grow.
spec fn total_headroom(incoming: Seq<State>) -> nat
    decreases incoming.len(),
{
    if incoming.len() == 0 {
        0
    } else {
        total_headroom(incoming.drop_last()) + incoming.last().headroom()
    }
}

proof fn lemma_headroom_update(incoming: Seq<State>, at: int, state: State)
    requires
        0 <= at < incoming.len(),
    ensures
        total_headroom(incoming.update(at, state)) + incoming[at].headroom() == total_headroom(
            incoming,
        ) + state.headroom(),
    decreases incoming.len(),
{
    let after = incoming.update(at, state);
    if at < incoming.len() - 1 {
        lemma_headroom_update(incoming.drop_last(), at, state);
        assert(after.drop_last() =~= incoming.drop_last().update(at, state));
    } else {
        assert(after.drop_last() =~= incoming.drop_last());
    }
}

/// Whether every solution lies above the states found so far.
spec fn is_lower_bound(functions: Seq<FunctionModel>, entry: int, incoming: Seq<State>) -> bool {
    forall|other: Seq<State>| #[trigger]
        is_solution(functions, entry, other) ==> all_below(incoming, other)
}

/// What the search keeps: it stays below every solution, and everything but the
/// pending functions and `working` is accounted for.
spec fn is_progress(
    functions: Seq<FunctionModel>,
    entry: int,
    incoming: Seq<State>,
    pending: Seq<usize>,
    working: int,
) -> bool {
    &&& incoming.len() == functions.len()
    &&& 0 <= entry < functions.len()
    &&& incoming[entry] == State::Unknown
    &&& is_lower_bound(functions, entry, incoming)
    &&& forall|k: int| 0 <= k < pending.len() ==> (#[trigger] pending[k]) < functions.len()
    &&& forall|id: int|
        0 <= id < functions.len() && id != working && !pending.contains(id as usize)
            ==> #[trigger] accounts_for(functions, incoming, id)
}

/// One call handed on: the target takes the state in, and is pending if that
/// changed it.
fn hand_on(
    incoming: &mut Vec<State>,
    pending: &mut Vec<usize>,
    target: usize,
    state: State,
    Ghost(functions): Ghost<Seq<FunctionModel>>,
    Ghost(entry): Ghost<int>,
    Ghost(working): Ghost<int>,
)
    requires
        is_progress(functions, entry, old(incoming)@, old(pending)@, working),
        functions.len() <= usize::MAX,
        target < functions.len(),
        forall|other: Seq<State>| #[trigger]
            is_solution(functions, entry, other) ==> state.below(other[target as int]),
    ensures
        is_progress(functions, entry, final(incoming)@, final(pending)@, working),
        state.below(final(incoming)@[target as int]),
        all_below(old(incoming)@, final(incoming)@),
        forall|id: usize| old(pending)@.contains(id) ==> #[trigger] final(pending)@.contains(id),
        forall|id: int|
            0 <= id < functions.len() && final(incoming)@[id] != old(incoming)@[id]
                ==> #[trigger] final(pending)@.contains(id as usize),
        2 * total_headroom(final(incoming)@) + final(pending)@.len() <= 2 * total_headroom(
            old(incoming)@,
        ) + old(pending)@.len(),
{
    let joined: State = incoming[target].join(state);
    if incoming[target] == joined {
        return;
    }
    let ghost before = incoming@;
    let ghost waiting = pending@;
    proof {
        lemma_headroom_update(before, target as int, joined);
    }
    incoming.set(target, joined);
    pending.push(target);
    proof {
        let after = incoming@;
        let now = pending@;
        assert(now[waiting.len() as int] == target);
        assert forall|id: usize| waiting.contains(id) implies #[trigger] now.contains(id) by {
            let k = choose|k: int| 0 <= k < waiting.len() && waiting[k] == id;
            assert(now[k] == id);
        }
        assert forall|other: Seq<State>| #[trigger]
            is_solution(functions, entry, other) implies all_below(after, other) by {
            assert(all_below(before, other));
            assert forall|id: int| 0 <= id < after.len() implies (#[trigger] after[id]).below(
                other[id],
            ) by {
                assert(before[id].below(other[id]));
                if id == target {
                    law_join_is_least(before[id], state, other[id]);
                }
            }
        }
        assert forall|id: int|
            0 <= id < functions.len() && id != working && !now.contains(
                id as usize,
            ) implies #[trigger] accounts_for(functions, after, id) by {
            assert(!waiting.contains(id as usize));
            assert(accounts_for(functions, before, id));
            assert(id != target);
            assert forall|i: int, callee: int|
                0 <= i < functions[id].body.len() && 0 <= callee < functions.len()
                    && #[trigger] calls(functions[id].body[i].1, callee) implies state_after(
                functions[id].body,
                i + 1,
                after[id],
            ).below(after[callee]) by {
                assert(state_after(functions[id].body, i + 1, before[id]).below(before[callee]));
                law_join_is_least(before[target as int], state, joined);
            }
        }
        assert(entry == target ==> before[entry].joined(state) == State::Unknown);
    }
}

/// The states on entry to the functions.
fn solve(functions: &Vec<SyntheticFunction>, entry: usize) -> (res: Vec<State>)
    requires
        entry < functions@.len(),
        super::ir::functions_linked(function_models(functions@), functions@.len() as int),
    ensures
        is_least_solution(function_models(functions@), entry as int, res@),
{
    let ghost models = function_models(functions@);
    let total: usize = functions.len();
    let mut incoming: Vec<State> = Vec::new();
    let mut i: usize = 0;
    while i < total
        invariant
            i <= total,
            incoming@.len() == i,
            forall|k: int| 0 <= k < i ==> (#[trigger] incoming@[k]) == State::Unreachable,
        decreases total - i,
    {
        incoming.push(State::Unreachable);
        i = i + 1;
    }
    incoming.set(entry, State::Unknown);
    let mut pending: Vec<usize> = Vec::new();
    pending.push(entry);
    proof {
        assert(pending@[0] == entry);
        assert forall|other: Seq<State>| #[trigger]
            is_solution(models, entry as int, other) implies all_below(incoming@, other) by {
            assert forall|id: int| 0 <= id < incoming@.len() implies (
            #[trigger] incoming@[id]).below(other[id]) by {
                if id == entry {
                    assert(other[id] == State::Unknown);
                }
            }
        }
        assert forall|id: int|
            0 <= id < models.len() && id != -1 && !pending@.contains(
                id as usize,
            ) implies #[trigger] accounts_for(models, incoming@, id) by {
            assert(id != entry);
            assert forall|k: int, callee: int|
                0 <= k < models[id].body.len() && 0 <= callee < models.len() && #[trigger] calls(
                    models[id].body[k].1,
                    callee,
                ) implies state_after(models[id].body, k + 1, incoming@[id]).below(
                incoming@[callee],
            ) by {
                lemma_unreachable_stays(models[id].body, k + 1);
            }
        }
    }
    while pending.len() > 0
        invariant
            total == functions@.len(),
            models == function_models(functions@),
            super::ir::functions_linked(models, total as int),
            is_progress(models, entry as int, incoming@, pending@, -1),
        decreases 2 * total_headroom(incoming@) + pending@.len(),
    {
        let ghost waiting = pending@;
        let id: usize = match pending.pop() {
            Some(id) => id,
            None => return incoming,
        };
        let start: State = incoming[id];
        let ghost initial = incoming@;
        proof {
            assert(waiting.last() == id);
            assert forall|other: int|
                0 <= other < models.len() && other != id && !pending@.contains(
                    other as usize,
                ) implies #[trigger] accounts_for(models, incoming@, other) by {
                if waiting.contains(other as usize) {
                    let k = choose|k: int| 0 <= k < waiting.len() && waiting[k] == other as usize;
                    assert(pending@[k] == other as usize);
                }
            }
        }
        let ghost measure = 2 * total_headroom(incoming@) + pending@.len();
        let body = &functions[id].body;
        assert(models[id as int].body == body_models(body@));
        let mut state: State = start;
        let mut at: usize = 0;
        while at < body.len()
            invariant
                at <= body@.len(),
                id < total,
                total == functions@.len(),
                models == function_models(functions@),
                super::ir::functions_linked(models, total as int),
                models[id as int].body == body_models(body@),
                is_progress(models, entry as int, incoming@, pending@, id as int),
                state == state_after(models[id as int].body, at as int, start),
                initial[id as int] == start,
                initial.len() == total,
                is_lower_bound(models, entry as int, initial),
                all_below(initial, incoming@),
                incoming@[id as int] != start ==> pending@.contains(id),
                2 * total_headroom(incoming@) + pending@.len() <= measure,
                forall|k: int, callee: int|
                    0 <= k < at && 0 <= callee < total && #[trigger] calls(
                        models[id as int].body[k].1,
                        callee,
                    ) ==> state_after(models[id as int].body, k + 1, start).below(
                        incoming@[callee],
                    ),
            decreases body@.len() - at,
        {
            assert(models[id as int].body[at as int].1 == body@[at as int].1.model());
            state = write(&body[at].1, state);
            let mut targets: Vec<usize> = Vec::new();
            assert(calls_within(models[id as int].body[at as int].1, total as int));
            transfers(&body[at].1, &mut targets, Ghost(total as int));
            assert forall|other: Seq<State>, callee: int|
                #[trigger] is_solution(models, entry as int, other) && 0 <= callee < total
                    && #[trigger] calls(
                    models[id as int].body[at as int].1,
                    callee,
                ) implies state.below(other[callee]) by {
                assert(all_below(initial, other));
                assert(initial[id as int].below(other[id as int]));
                lemma_state_after_monotone(
                    models[id as int].body,
                    at + 1,
                    start,
                    other[id as int],
                );
                assert(accounts_for(models, other, id as int));
            }
            let mut j: usize = 0;
            while j < targets.len()
                invariant
                    at < body@.len(),
                    j <= targets@.len(),
                    id < total,
                    total == functions@.len(),
                    models == function_models(functions@),
                    models[id as int].body == body_models(body@),
                    models[id as int].body[at as int].1 == body@[at as int].1.model(),
                    is_progress(models, entry as int, incoming@, pending@, id as int),
                    state == state_after(models[id as int].body, at + 1, start),
                    initial[id as int] == start,
                    initial.len() == total,
                    all_below(initial, incoming@),
                    incoming@[id as int] != start ==> pending@.contains(id),
                    2 * total_headroom(incoming@) + pending@.len() <= measure,
                    forall|k: int| 0 <= k < targets@.len() ==> (#[trigger] targets@[k]) < total,
                    forall|callee: usize| #[trigger]
                        targets@.contains(callee) <==> calls(
                            models[id as int].body[at as int].1,
                            callee as int,
                        ),
                    forall|other: Seq<State>, callee: int|
                        #[trigger] is_solution(models, entry as int, other) && 0 <= callee < total
                            && #[trigger] calls(
                            models[id as int].body[at as int].1,
                            callee,
                        ) ==> state.below(other[callee]),
                    forall|k: int|
                        0 <= k < j ==> state.below(incoming@[(#[trigger] targets@[k]) as int]),
                    forall|k: int, callee: int|
                        0 <= k < at && 0 <= callee < total && #[trigger] calls(
                            models[id as int].body[k].1,
                            callee,
                        ) ==> state_after(models[id as int].body, k + 1, start).below(
                            incoming@[callee],
                        ),
                decreases targets@.len() - j,
            {
                let ghost before = incoming@;
                let target: usize = targets[j];
                assert(targets@.contains(target));
                hand_on(
                    &mut incoming,
                    &mut pending,
                    target,
                    state,
                    Ghost(models),
                    Ghost(entry as int),
                    Ghost(id as int),
                );
                proof {
                    if incoming@[id as int] != before[id as int] {
                        assert(pending@.contains((id as int) as usize));
                    }
                    assert forall|k: int| 0 <= k < total implies (#[trigger] initial[k]).below(
                        incoming@[k],
                    ) by {
                        assert(before[k].below(incoming@[k]));
                    }
                    assert forall|k: int| 0 <= k < j implies state.below(
                        incoming@[(#[trigger] targets@[k]) as int],
                    ) by {
                        assert(before[targets@[k] as int].below(incoming@[targets@[k] as int]));
                    }
                    assert forall|k: int, callee: int|
                        0 <= k < at && 0 <= callee < total && #[trigger] calls(
                            models[id as int].body[k].1,
                            callee,
                        ) implies state_after(models[id as int].body, k + 1, start).below(
                        incoming@[callee],
                    ) by {
                        assert(before[callee].below(incoming@[callee]));
                    }
                }
                j = j + 1;
            }
            proof {
                assert forall|k: int, callee: int|
                    0 <= k < at + 1 && 0 <= callee < total && #[trigger] calls(
                        models[id as int].body[k].1,
                        callee,
                    ) implies state_after(models[id as int].body, k + 1, start).below(
                    incoming@[callee],
                ) by {
                    if k == at {
                        assert(targets@.contains(callee as usize));
                        let m = choose|m: int|
                            0 <= m < targets@.len() && targets@[m] == callee as usize;
                        assert(state.below(incoming@[targets@[m] as int]));
                    }
                }
            }
            at = at + 1;
        }
        proof {
            assert forall|other: int|
                0 <= other < models.len() && other != -1 && !pending@.contains(
                    other as usize,
                ) implies #[trigger] accounts_for(models, incoming@, other) by {
                if other == id {
                    assert(incoming@[id as int] == start);
                }
            }
        }
    }
    proof {
        assert forall|id: int| 0 <= id < models.len() implies #[trigger] accounts_for(
            models,
            incoming@,
            id,
        ) by {
            assert(!pending@.contains(id as usize));
        }
    }
    incoming
}

proof fn lemma_unreachable_stays(body: Seq<(usize, InstModel)>, count: int)
    ensures
        state_after(body, count, State::Unreachable) == State::Unreachable,
    decreases count,
{
    if count > 0 {
        lemma_unreachable_stays(body, count - 1);
    }
}

fn rewrite(instr: &IRInst, state: State) -> (res: IRInst)
    ensures
        res.model() == with_return(instr.model(), state),
    decreases instr,
{
    match instr {
        IRInst::Return(None) => match state {
            State::Register(register) => IRInst::Return(Some(IRExpr::Reg(register))),
            _ => IRInst::Return(None),
        },
        IRInst::If { condition, then_branch, else_branch } => IRInst::If {
            condition: condition.clone(),
            then_branch: Box::new(rewrite(then_branch, state)),
            else_branch: Box::new(rewrite(else_branch, state)),
        },
        _ => instr.clone(),
    }
}

fn rewrite_body(body: &mut Vec<(usize, IRInst)>, state: State)
    ensures
        body_models(final(body)@) == body_with_returns(body_models(old(body)@), state),
{
    let ghost all = body_models(body@);
    let total: usize = body.len();
    let mut current: State = state;
    let mut i: usize = 0;
    while i < total
        invariant
            i <= total,
            total == body@.len(),
            total == all.len(),
            current == state_after(all, i as int, state),
            forall|k: int|
                0 <= k < i ==> (#[trigger] body@[k]).0 == all[k].0 && body@[k].1.model()
                    == with_return(all[k].1, state_after(all, k + 1, state)),
            forall|k: int|
                i <= k < total ==> (#[trigger] body@[k]).0 == all[k].0 && body@[k].1.model()
                    == all[k].1,
        decreases total - i,
    {
        current = write(&body[i].1, current);
        let replacement: IRInst = rewrite(&body[i].1, current);
        body[i].1 = replacement;
        i = i + 1;
    }
    assert(body_models(body@) =~= body_with_returns(all, state));
}

pub fn run(program: &mut Program)
    requires
        is_linked(old(program).model()),
    ensures
        returns_named(old(program).model(), final(program).model()),
{
    let entry: usize = match program.entry {
        Some(entry) => entry.id,
        None => return,
    };
    let ghost before = function_models(program.functions@);
    let incoming: Vec<State> = solve(&program.functions, entry);
    let total: usize = program.functions.len();
    let ghost initial = *program;
    let mut i: usize = 0;
    while i < total
        invariant
            i <= total,
            total == program.functions@.len(),
            total == before.len(),
            total == incoming@.len(),
            before == function_models(initial.functions@),
            program.entry_address == initial.entry_address,
            program.entry == initial.entry,
            program.stack_widths == initial.stack_widths,
            forall|k: int|
                0 <= k < i ==> (#[trigger] program.functions@[k]).model() == (FunctionModel {
                    body: body_with_returns(before[k].body, incoming@[k]),
                    ..before[k]
                }),
            forall|k: int|
                i <= k < total ==> (#[trigger] program.functions@[k]).model() == before[k],
        decreases total - i,
    {
        rewrite_body(&mut program.functions[i].body, incoming[i]);
        i = i + 1;
    }
    proof {
        assert(function_models(program.functions@) =~= functions_with_returns(before, incoming@));
        assert(is_least_solution(before, entry as int, incoming@));
    }
}

} // verus!
