//! What running a body comes to: which value is returned, and what is left in
//! memory.
use super::ir::{
    DataId, IRBinOpKind, IRExpr, InstModel, IntegerType, LoopCondition, LoopId,
    SyntheticFunctionId, VariableId, VariableType,
};
use vstd::arithmetic::power2::pow2;
use vstd::prelude::*;

verus! {

/// What running does not change: the widths of the slots, the arguments, and how
/// the operations compute. A memory is known by a number.
pub struct Meaning {
    pub types: Map<VariableId, VariableType>,
    pub operation: spec_fn(IRBinOpKind, int, int) -> int,
    pub conversion: spec_fn(int, IntegerType, IntegerType) -> int,
    pub argument: spec_fn(usize) -> int,
    pub data: spec_fn(DataId) -> int,
    pub load: spec_fn(int, int, Option<usize>) -> int,
    pub store: spec_fn(int, int, Option<usize>, int) -> int,
}

/// What running changes.
pub struct State {
    pub variables: spec_fn(VariableId) -> int,
    pub memory: int,
}

/// How a run ends.
pub enum Outcome {
    Next(State),
    Return(Option<int>, int),
    Break(State),
    Continue(State),
    ContinueLoop(LoopId, State),
    Call(SyntheticFunctionId, Seq<int>, int),
    Jump(int, State),
    End(State),
    /// A loop has run as often as was allowed.
    Spent,
}

pub open spec fn bit(truth: bool) -> int {
    if truth {
        1
    } else {
        0
    }
}

/// What a slot of the type holds of a number.
pub open spec fn cut(ty: VariableType, value: int) -> int {
    match ty {
        VariableType::Unknown(Some(size)) => value % (pow2(8 * size as nat) as int),
        VariableType::Unknown(None) => value,
        VariableType::Bool => bit(value != 0),
    }
}

/// What is read from a slot.
pub open spec fn read(m: Meaning, state: State, variable: VariableId) -> int {
    if m.types.dom().contains(variable) {
        cut(m.types[variable], (state.variables)(variable))
    } else {
        (state.variables)(variable)
    }
}

/// The width of an access through an address.
pub open spec fn access_size(address: IRExpr) -> Option<usize> {
    match address {
        IRExpr::CastUnknownPtr { size, .. } => size,
        _ => None,
    }
}

/// The value of an expression. A disjunction is true where one of its sides is.
pub open spec fn value(m: Meaning, state: State, expr: IRExpr) -> int
    decreases expr,
{
    match expr {
        IRExpr::BinOp { kind, lhs, rhs } => {
            let a = value(m, state, *lhs);
            let b = value(m, state, *rhs);
            match kind {
                IRBinOpKind::Or => bit(a != 0 || b != 0),
                IRBinOpKind::Eq => bit(a == b),
                IRBinOpKind::Ne => bit(a != b),
                _ => (m.operation)(kind, a, b),
            }
        },
        IRExpr::Deref(address) => (m.load)(
            state.memory,
            value(m, state, *address),
            access_size(*address),
        ),
        IRExpr::CastUnknownPtr { address, .. } => value(m, state, *address),
        IRExpr::Argument(ordinal) => (m.argument)(ordinal),
        IRExpr::Convert { value: inner, source, target } => (m.conversion)(
            value(m, state, *inner),
            source,
            target,
        ) % (pow2(8 * target.size as nat) as int),
        IRExpr::CU8(constant) => constant as int,
        IRExpr::CU32(constant) => constant as int,
        IRExpr::CU64(constant) => constant as int,
        IRExpr::Variable(variable) => read(m, state, variable),
        IRExpr::Data(id) => (m.data)(id),
        IRExpr::Bool(truth) => bit(truth),
        IRExpr::Not(inner) => bit(value(m, state, *inner) == 0),
    }
}

/// Whether a condition is true.
pub open spec fn holds(m: Meaning, state: State, condition: IRExpr) -> bool {
    value(m, state, condition) != 0
}

pub open spec fn with_variable(state: State, variable: VariableId, value: int) -> State {
    State {
        variables: |v: VariableId|
            if v == variable {
                value
            } else {
                (state.variables)(v)
            },
        ..state
    }
}

/// The state after a value has been assigned.
pub open spec fn assigned(m: Meaning, state: State, dest: IRExpr, value: int) -> State {
    match dest {
        IRExpr::Variable(variable) => with_variable(state, variable, value),
        IRExpr::Deref(address) => State {
            memory: (m.store)(
                state.memory,
                self::value(m, state, *address),
                access_size(*address),
                value,
            ),
            ..state
        },
        _ => state,
    }
}

/// What running an instruction comes to. Each pass through a loop takes one of
/// `fuel`.
pub open spec fn run(m: Meaning, instr: InstModel, state: State, fuel: nat) -> Outcome
    decreases fuel, instr,
{
    match instr {
        InstModel::Assign { dest, src } => Outcome::Next(
            assigned(m, state, dest, value(m, state, src)),
        ),
        InstModel::Return(None) => Outcome::Return(None, state.memory),
        InstModel::Return(Some(returned)) => Outcome::Return(
            Some(value(m, state, returned)),
            state.memory,
        ),
        InstModel::DeclareVariable { .. } => Outcome::Next(state),
        InstModel::DeclareAndAssignVariable { variable, value, .. } => Outcome::Next(
            with_variable(state, variable, self::value(m, state, value)),
        ),
        InstModel::AssignVariable { variable, value } => Outcome::Next(
            with_variable(state, variable, self::value(m, state, value)),
        ),
        InstModel::LoadVariable { variable, address } => Outcome::Next(
            with_variable(
                state,
                variable,
                (m.load)(state.memory, value(m, state, address), access_size(address)),
            ),
        ),
        InstModel::StoreVariable { address, variable } => Outcome::Next(
            State {
                memory: (m.store)(
                    state.memory,
                    value(m, state, address),
                    access_size(address),
                    read(m, state, variable),
                ),
                ..state
            },
        ),
        InstModel::If { condition, then_branch, else_branch } => if holds(m, state, condition) {
            run_list(m, then_branch, state, fuel)
        } else {
            run_list(m, else_branch, state, fuel)
        },
        InstModel::While { label, condition, body, .. } => run_loop(
            m,
            label,
            condition,
            body,
            state,
            fuel,
        ),
        InstModel::Break => Outcome::Break(state),
        InstModel::Continue => Outcome::Continue(state),
        InstModel::ContinueLoop(label) => Outcome::ContinueLoop(label, state),
        InstModel::CallSynthetic { function, arguments } => Outcome::Call(
            function,
            arguments.map_values(|a: IRExpr| value(m, state, a)),
            state.memory,
        ),
        InstModel::Jump(target) => Outcome::Jump(value(m, state, target), state),
        InstModel::End => Outcome::End(state),
    }
}

/// What running a list comes to: it ends with the first instruction that does not
/// go on to the next.
pub open spec fn run_list(m: Meaning, list: Seq<InstModel>, state: State, fuel: nat) -> Outcome
    decreases fuel, list,
{
    if list.len() == 0 {
        Outcome::Next(state)
    } else {
        match run_list(m, list.drop_last(), state, fuel) {
            Outcome::Next(after) => run(m, list[list.len() - 1], after, fuel),
            other => other,
        }
    }
}

pub open spec fn run_body(
    m: Meaning,
    list: Seq<(usize, InstModel)>,
    state: State,
    fuel: nat,
) -> Outcome
    decreases fuel, list,
{
    if list.len() == 0 {
        Outcome::Next(state)
    } else {
        match run_body(m, list.drop_last(), state, fuel) {
            Outcome::Next(after) => run(m, list[list.len() - 1].1, after, fuel),
            other => other,
        }
    }
}

/// The state in which a pass through a loop goes on to its check.
pub open spec fn goes_on(outcome: Outcome, label: Option<LoopId>) -> Option<State> {
    match outcome {
        Outcome::Next(after) => Some(after),
        Outcome::Continue(after) => Some(after),
        Outcome::ContinueLoop(target, after) => if label == Some(target) {
            Some(after)
        } else {
            None
        },
        _ => None,
    }
}

/// What running a loop comes to.
pub open spec fn run_loop(
    m: Meaning,
    label: Option<LoopId>,
    condition: LoopCondition,
    body: Seq<(usize, InstModel)>,
    state: State,
    fuel: nat,
) -> Outcome
    decreases fuel, body,
{
    if fuel == 0 {
        Outcome::Spent
    } else if condition is Before && !holds(m, state, condition.check()) {
        Outcome::Next(state)
    } else {
        let outcome = run_body(m, body, state, (fuel - 1) as nat);
        match goes_on(outcome, label) {
            Some(after) => if condition is After && !holds(m, after, condition.check()) {
                Outcome::Next(after)
            } else {
                run_loop(m, label, condition, body, after, (fuel - 1) as nat)
            },
            None => match outcome {
                Outcome::Break(after) => Outcome::Next(after),
                _ => outcome,
            },
        }
    }
}

// ---------------------------------------------------------------------------
// Lists

pub proof fn lemma_run_list_push(
    m: Meaning,
    list: Seq<InstModel>,
    last: InstModel,
    state: State,
    fuel: nat,
)
    ensures
        run_list(m, list.push(last), state, fuel) == match run_list(m, list, state, fuel) {
            Outcome::Next(after) => run(m, last, after, fuel),
            other => other,
        },
{
    assert(list.push(last).drop_last() =~= list);
}

pub proof fn lemma_run_body_push(
    m: Meaning,
    list: Seq<(usize, InstModel)>,
    last: (usize, InstModel),
    state: State,
    fuel: nat,
)
    ensures
        run_body(m, list.push(last), state, fuel) == match run_body(m, list, state, fuel) {
            Outcome::Next(after) => run(m, last.1, after, fuel),
            other => other,
        },
{
    assert(list.push(last).drop_last() =~= list);
}

/// The offsets of a body have no part in its run.
pub proof fn lemma_run_body_bare(
    m: Meaning,
    list: Seq<(usize, InstModel)>,
    bare: Seq<InstModel>,
    state: State,
    fuel: nat,
)
    requires
        bare.len() == list.len(),
        forall|i: int| 0 <= i < list.len() ==> #[trigger] bare[i] == list[i].1,
    ensures
        run_body(m, list, state, fuel) == run_list(m, bare, state, fuel),
    decreases list.len(),
{
    if list.len() > 0 {
        lemma_run_body_bare(m, list.drop_last(), bare.drop_last(), state, fuel);
        assert(bare[list.len() - 1] == list[list.len() - 1].1);
    }
}

/// Two loops whose bodies come to the same come to the same.
pub proof fn lemma_same_loops(
    m: Meaning,
    label: Option<LoopId>,
    condition: LoopCondition,
    first: Seq<(usize, InstModel)>,
    second: Seq<(usize, InstModel)>,
    state: State,
    fuel: nat,
)
    requires
        forall|s: State, n: nat| #[trigger]
            run_body(m, first, s, n) == run_body(m, second, s, n),
    ensures
        run_loop(m, label, condition, first, state, fuel) == run_loop(
            m,
            label,
            condition,
            second,
            state,
            fuel,
        ),
    decreases fuel,
{
    if fuel > 0 && !(condition is Before && !holds(m, state, condition.check())) {
        let outcome = run_body(m, first, state, (fuel - 1) as nat);
        if let Some(after) = goes_on(outcome, label) {
            lemma_same_loops(m, label, condition, first, second, after, (fuel - 1) as nat);
        }
    }
}

/// What a slot holds of a number it holds of what it holds.
pub proof fn lemma_cut_twice(ty: VariableType, value: int)
    ensures
        cut(ty, cut(ty, value)) == cut(ty, value),
{
    if let VariableType::Unknown(Some(size)) = ty {
        vstd::arithmetic::power2::lemma_pow2_pos(8 * size as nat);
        vstd::arithmetic::div_mod::lemma_mod_twice(value, pow2(8 * size as nat) as int);
    }
}

} // verus!
