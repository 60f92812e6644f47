//! What running a body comes to: which value is returned, and what is left in
//! memory.
use super::ir::{
    DataId, IRBinOpKind, IRExpr, InstModel, IntegerType, LoopId, SyntheticFunctionId, VariableId,
};
use vstd::prelude::*;

verus! {

/// What running does not change: the arguments, and how the operations compute.
/// A memory is known by a number, and so is a pointer.
pub struct Meaning {
    pub operation: spec_fn(IRBinOpKind, int, int) -> int,
    pub conversion: spec_fn(int, IntegerType, IntegerType) -> int,
    pub cast: spec_fn(int, Option<usize>) -> int,
    pub negation: spec_fn(int) -> int,
    pub argument: spec_fn(usize) -> int,
    pub data: spec_fn(DataId) -> int,
    pub load: spec_fn(int, int) -> int,
    pub store: spec_fn(int, int, int) -> int,
}

/// What running changes.
pub struct State {
    pub variables: spec_fn(VariableId) -> int,
    pub memory: int,
}

/// How a run ends.
pub enum Outcome {
    Next(State),
    Return(Option<int>, int),
    Break(State),
    Continue(State),
    ContinueLoop(LoopId, State),
    Call(SyntheticFunctionId, Seq<int>, int),
    Jump(int, State),
    End(State),
    /// A loop has run as often as was allowed.
    Spent,
}

/// The value of an expression. A dereference reads the memory at the address, and
/// data is read from where it lies.
pub open spec fn value(m: Meaning, state: State, expr: IRExpr) -> int
    decreases expr,
{
    match expr {
        IRExpr::BinOp { kind, lhs, rhs } => (m.operation)(
            kind,
            value(m, state, *lhs),
            value(m, state, *rhs),
        ),
        IRExpr::Deref(address) => (m.load)(state.memory, value(m, state, *address)),
        IRExpr::CastUnknownPtr { address, size } => (m.cast)(value(m, state, *address), size),
        IRExpr::Argument(ordinal) => (m.argument)(ordinal),
        IRExpr::Convert { value: inner, source, target } => (m.conversion)(
            value(m, state, *inner),
            source,
            target,
        ),
        IRExpr::CU8(constant) => constant as int,
        IRExpr::CU32(constant) => constant as int,
        IRExpr::CU64(constant) => constant as int,
        IRExpr::Variable(variable) => (state.variables)(variable),
        IRExpr::Data(id) => (m.load)(state.memory, (m.data)(id)),
        IRExpr::Bool(truth) => if truth {
            1
        } else {
            0
        },
        IRExpr::Not(inner) => (m.negation)(value(m, state, *inner)),
    }
}

/// Whether a condition is true.
pub open spec fn holds(m: Meaning, state: State, condition: IRExpr) -> bool {
    value(m, state, condition) != 0
}

pub open spec fn values(m: Meaning, state: State, list: Seq<IRExpr>) -> Seq<int> {
    Seq::new(list.len(), |i: int| value(m, state, list[i]))
}

pub open spec fn with_variable(state: State, variable: VariableId, value: int) -> State {
    State {
        variables: |v: VariableId|
            if v == variable {
                value
            } else {
                (state.variables)(v)
            },
        ..state
    }
}

/// The state after a value has been assigned. What is no variable lies in memory.
pub open spec fn assigned(m: Meaning, state: State, dest: IRExpr, value: int) -> State {
    match dest {
        IRExpr::Variable(variable) => with_variable(state, variable, value),
        IRExpr::Deref(address) => State {
            memory: (m.store)(state.memory, self::value(m, state, *address), value),
            ..state
        },
        IRExpr::Data(id) => State {
            memory: (m.store)(state.memory, (m.data)(id), value),
            ..state
        },
        _ => State {
            memory: (m.store)(state.memory, self::value(m, state, dest), value),
            ..state
        },
    }
}

/// What running an instruction comes to. Each pass through a loop takes one of
/// `fuel`.
pub open spec fn run(m: Meaning, instr: InstModel, state: State, fuel: nat) -> Outcome
    decreases fuel, instr,
{
    match instr {
        InstModel::Assign { dest, src } => Outcome::Next(
            assigned(m, state, dest, value(m, state, src)),
        ),
        InstModel::Return(None) => Outcome::Return(None, state.memory),
        InstModel::Return(Some(returned)) => Outcome::Return(
            Some(value(m, state, returned)),
            state.memory,
        ),
        InstModel::DeclareVariable { .. } => Outcome::Next(state),
        InstModel::AssignVariable { variable, value } => Outcome::Next(
            with_variable(state, variable, self::value(m, state, value)),
        ),
        InstModel::LoadVariable { variable, address } => Outcome::Next(
            with_variable(state, variable, (m.load)(state.memory, value(m, state, address))),
        ),
        InstModel::StoreVariable { address, variable } => Outcome::Next(
            State {
                memory: (m.store)(
                    state.memory,
                    value(m, state, address),
                    (state.variables)(variable),
                ),
                ..state
            },
        ),
        InstModel::If { condition, then_branch, else_branch } => if holds(m, state, condition) {
            run_list(m, then_branch, state, fuel)
        } else {
            run_list(m, else_branch, state, fuel)
        },
        InstModel::Loop { label, body, .. } => run_loop(m, label, body, state, fuel),
        InstModel::Break => Outcome::Break(state),
        InstModel::Continue => Outcome::Continue(state),
        InstModel::ContinueLoop(label) => Outcome::ContinueLoop(label, state),
        InstModel::CallSynthetic { function, arguments } => Outcome::Call(
            function,
            values(m, state, arguments),
            state.memory,
        ),
        InstModel::Jump(target) => Outcome::Jump(value(m, state, target), state),
        InstModel::End => Outcome::End(state),
    }
}

/// What running a list comes to: it ends with the first instruction that does not
/// go on to the next.
pub open spec fn run_list(m: Meaning, list: Seq<InstModel>, state: State, fuel: nat) -> Outcome
    decreases fuel, list,
{
    if list.len() == 0 {
        Outcome::Next(state)
    } else {
        match run_list(m, list.drop_last(), state, fuel) {
            Outcome::Next(after) => run(m, list[list.len() - 1], after, fuel),
            other => other,
        }
    }
}

pub open spec fn run_body(
    m: Meaning,
    list: Seq<(usize, InstModel)>,
    state: State,
    fuel: nat,
) -> Outcome
    decreases fuel, list,
{
    if list.len() == 0 {
        Outcome::Next(state)
    } else {
        match run_body(m, list.drop_last(), state, fuel) {
            Outcome::Next(after) => run(m, list[list.len() - 1].1, after, fuel),
            other => other,
        }
    }
}

/// The state in which a pass through a loop goes on to the next one.
pub open spec fn goes_on(outcome: Outcome, label: Option<LoopId>) -> Option<State> {
    match outcome {
        Outcome::Next(after) => Some(after),
        Outcome::Continue(after) => Some(after),
        Outcome::ContinueLoop(target, after) => if label == Some(target) {
            Some(after)
        } else {
            None
        },
        _ => None,
    }
}

/// What running a loop comes to.
pub open spec fn run_loop(
    m: Meaning,
    label: Option<LoopId>,
    body: Seq<(usize, InstModel)>,
    state: State,
    fuel: nat,
) -> Outcome
    decreases fuel, body,
{
    if fuel == 0 {
        Outcome::Spent
    } else {
        let outcome = run_body(m, body, state, (fuel - 1) as nat);
        match goes_on(outcome, label) {
            Some(after) => run_loop(m, label, body, after, (fuel - 1) as nat),
            None => match outcome {
                Outcome::Break(after) => Outcome::Next(after),
                _ => outcome,
            },
        }
    }
}

/// What can be seen of an outcome from outside: where control goes, the value that
/// it carries, and the memory.
pub enum Seen {
    Next,
    Return(Option<int>),
    Break,
    Continue,
    ContinueLoop(LoopId),
    Call(SyntheticFunctionId, Seq<int>),
    Jump(int),
    End,
    Spent,
}

pub open spec fn seen(outcome: Outcome) -> (Seen, int) {
    match outcome {
        Outcome::Next(state) => (Seen::Next, state.memory),
        Outcome::Return(value, memory) => (Seen::Return(value), memory),
        Outcome::Break(state) => (Seen::Break, state.memory),
        Outcome::Continue(state) => (Seen::Continue, state.memory),
        Outcome::ContinueLoop(label, state) => (Seen::ContinueLoop(label), state.memory),
        Outcome::Call(function, arguments, memory) => (Seen::Call(function, arguments), memory),
        Outcome::Jump(target, state) => (Seen::Jump(target), state.memory),
        Outcome::End(state) => (Seen::End, state.memory),
        Outcome::Spent => (Seen::Spent, 0),
    }
}

// ---------------------------------------------------------------------------
// States that agree

/// Whether two states differ at most in one variable.
pub open spec fn agree(a: State, b: State, slot: VariableId) -> bool {
    &&& a.memory == b.memory
    &&& forall|v: VariableId| v != slot ==> #[trigger] (a.variables)(v) == (b.variables)(v)
}

/// Whether two runs end alike, in states that differ at most in one variable.
pub open spec fn alike(a: Outcome, b: Outcome, slot: VariableId) -> bool {
    match (a, b) {
        (Outcome::Next(s), Outcome::Next(t)) => agree(s, t, slot),
        (Outcome::Return(v, p), Outcome::Return(w, q)) => v == w && p == q,
        (Outcome::Break(s), Outcome::Break(t)) => agree(s, t, slot),
        (Outcome::Continue(s), Outcome::Continue(t)) => agree(s, t, slot),
        (Outcome::ContinueLoop(l, s), Outcome::ContinueLoop(k, t)) => l == k && agree(s, t, slot),
        (Outcome::Call(f, v, p), Outcome::Call(g, w, q)) => f == g && v == w && p == q,
        (Outcome::Jump(v, s), Outcome::Jump(w, t)) => v == w && agree(s, t, slot),
        (Outcome::End(s), Outcome::End(t)) => agree(s, t, slot),
        (Outcome::Spent, Outcome::Spent) => true,
        _ => false,
    }
}

/// The state that a run ends in, where what follows could still see it.
pub open spec fn state_after(outcome: Outcome) -> Option<State> {
    match outcome {
        Outcome::Next(state) => Some(state),
        Outcome::Break(state) => Some(state),
        Outcome::Continue(state) => Some(state),
        Outcome::ContinueLoop(_, state) => Some(state),
        _ => None,
    }
}

pub proof fn lemma_run_body_push(
    m: Meaning,
    list: Seq<(usize, InstModel)>,
    last: (usize, InstModel),
    state: State,
    fuel: nat,
)
    ensures
        run_body(m, list.push(last), state, fuel) == match run_body(m, list, state, fuel) {
            Outcome::Next(after) => run(m, last.1, after, fuel),
            other => other,
        },
{
    assert(list.push(last).drop_last() =~= list);
}

} // verus!
