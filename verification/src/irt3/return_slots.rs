//! Give implicit machine returns a likely value from the last RAX-family write.
//!
//! Tier 3 has both the register-slot types and the complete structured control
//! flow. A return is rewritten only when every reachable path agrees on its
//! closest register write; a join of different writes remains implicit.
use super::inline_trivial_loops::{collect_slots, register_slots};
use super::ir::{
    body_models, function_models, models, FunctionModel, IRExpr, IRInst, InstModel, LoopId,
    Program, ProgramModel, SyntheticFunction, VariableId,
};
use crate::table::Table;
use crate::x86::{full_number, Register, RAX};
use vstd::prelude::*;

verus! {

/// What is known at a point of the last write of the return register.
#[derive(Clone, Copy, Debug, PartialEq, Eq, Structural)]
pub enum State {
    Unreachable,
    Unknown,
    /// Every path wrote this slot last.
    Slot(VariableId),
}

impl State {
    /// Whether the other state allows everything that this one does.
    pub open spec fn below(self, other: State) -> bool {
        self == State::Unreachable || other == State::Unknown || self == other
    }

    /// The least state that both are below.
    pub open spec fn joined(self, other: State) -> State {
        if self == State::Unreachable {
            other
        } else if other == State::Unreachable || self == other {
            self
        } else {
            State::Unknown
        }
    }

    /// How often the state can still grow.
    pub open spec fn headroom(self) -> nat {
        match self {
            State::Unreachable => 2,
            State::Slot(_) => 1,
            State::Unknown => 0,
        }
    }

    /// The state after a write, if there is one.
    pub open spec fn after(self, write: Option<VariableId>) -> State {
        if self == State::Unreachable {
            self
        } else {
            match write {
                Some(variable) => State::Slot(variable),
                None => self,
            }
        }
    }

    fn join(self, other: Self) -> (res: Self)
        ensures
            res == self.joined(other),
    {
        if self == State::Unreachable {
            other
        } else if other == State::Unreachable || self == other {
            self
        } else {
            State::Unknown
        }
    }
}

/// The join is the least upper bound.
pub proof fn law_join_is_least(a: State, b: State, bound: State)
    ensures
        a.below(a.joined(b)),
        b.below(a.joined(b)),
        a.below(bound) && b.below(bound) ==> a.joined(b).below(bound),
        a.joined(b) == b.joined(a),
{
}

// ---------------------------------------------------------------------------
// Flow

/// A point of the flow: where control goes, and what is written there.
pub struct PointModel {
    pub successors: Seq<usize>,
    pub write: Option<VariableId>,
}

struct Point {
    successors: Vec<usize>,
    write: Option<VariableId>,
}

impl Point {
    spec fn model(self) -> PointModel {
        PointModel { successors: self.successors@, write: self.write }
    }
}

spec fn point_models(points: Seq<Point>) -> Seq<PointModel> {
    points.map_values(|p: Point| p.model())
}

/// Where a break or continue in a loop leads.
#[derive(Clone, Copy, Debug, PartialEq, Eq, Structural)]
pub struct LoopTargets {
    pub label: Option<LoopId>,
    pub break_to: usize,
    pub continue_to: usize,
}

/// The header of the innermost of the first `count` loops with a label.
pub open spec fn labeled(loops: Seq<LoopTargets>, label: LoopId, count: int) -> Option<usize>
    decreases count,
{
    if count <= 0 {
        None
    } else if loops[count - 1].label == Some(label) {
        Some(loops[count - 1].continue_to)
    } else {
        labeled(loops, label, count - 1)
    }
}

/// The slot of the return register that an instruction writes.
pub open spec fn written_slot(instr: InstModel, slots: Map<VariableId, Register>) -> Option<
    VariableId,
> {
    let variable = match instr {
        InstModel::AssignVariable { variable, .. } => Some(variable),
        InstModel::Assign { dest: IRExpr::Variable(variable), .. } => Some(variable),
        _ => None,
    };
    match variable {
        Some(variable) => if slots.dom().contains(variable) && full_number(slots[variable].number)
            == RAX {
            Some(variable)
        } else {
            None
        },
        None => None,
    }
}

pub open spec fn to_list(target: Option<usize>) -> Seq<usize> {
    match target {
        Some(target) => seq![target],
        None => Seq::empty(),
    }
}

pub open spec fn point(successors: Seq<usize>, write: Option<VariableId>) -> PointModel {
    PointModel { successors, write }
}

/// The points with those of an instruction that is followed by `next`, and where
/// the instruction starts.
pub open spec fn flow_of(
    instr: InstModel,
    next: usize,
    loops: Seq<LoopTargets>,
    slots: Map<VariableId, Register>,
    points: Seq<PointModel>,
) -> (Seq<PointModel>, usize)
    decreases instr,
{
    match instr {
        InstModel::If { then_branch, else_branch, .. } => {
            let first = flow_of_list(then_branch, next, loops, slots, points);
            let second = flow_of_list(else_branch, next, loops, slots, first.0);
            (second.0.push(point(seq![first.1, second.1], None)), second.0.len() as usize)
        },
        InstModel::Loop { label, body, .. } => {
            let header = points.len() as usize;
            let inner = flow_of_body(
                body,
                header,
                loops.push(LoopTargets { label, break_to: next, continue_to: header }),
                slots,
                points.push(point(Seq::empty(), None)),
            );
            (
                inner.0.update(
                    points.len() as int,
                    PointModel {
                        successors: inner.0[points.len() as int].successors.push(inner.1),
                        ..inner.0[points.len() as int]
                    },
                ),
                header,
            )
        },
        _ => {
            let successors = match instr {
                InstModel::Break => to_list(
                    if loops.len() > 0 {
                        Some(loops.last().break_to)
                    } else {
                        None
                    },
                ),
                InstModel::Continue => to_list(
                    if loops.len() > 0 {
                        Some(loops.last().continue_to)
                    } else {
                        None
                    },
                ),
                InstModel::ContinueLoop(label) => to_list(
                    labeled(loops, label, loops.len() as int),
                ),
                InstModel::Return(_)
                | InstModel::CallSynthetic { .. }
                | InstModel::Jump(_)
                | InstModel::End => Seq::empty(),
                _ => seq![next],
            };
            (points.push(point(successors, written_slot(instr, slots))), points.len() as usize)
        },
    }
}

pub open spec fn flow_of_list(
    list: Seq<InstModel>,
    next: usize,
    loops: Seq<LoopTargets>,
    slots: Map<VariableId, Register>,
    points: Seq<PointModel>,
) -> (Seq<PointModel>, usize)
    decreases list,
{
    if list.len() == 0 {
        (points, next)
    } else {
        let last = flow_of(list[list.len() - 1], next, loops, slots, points);
        flow_of_list(list.drop_last(), last.1, loops, slots, last.0)
    }
}

pub open spec fn flow_of_body(
    list: Seq<(usize, InstModel)>,
    next: usize,
    loops: Seq<LoopTargets>,
    slots: Map<VariableId, Register>,
    points: Seq<PointModel>,
) -> (Seq<PointModel>, usize)
    decreases list,
{
    if list.len() == 0 {
        (points, next)
    } else {
        let last = flow_of(list[list.len() - 1].1, next, loops, slots, points);
        flow_of_body(list.drop_last(), last.1, loops, slots, last.0)
    }
}

/// Whether every edge ends at one of `count` points.
pub open spec fn within(points: Seq<PointModel>, count: int) -> bool {
    forall|i: int, k: int|
        0 <= i < points.len() && 0 <= k < points[i].successors.len() ==> (
        #[trigger] points[i].successors[k]) < count
}

spec fn loops_within(loops: Seq<LoopTargets>, count: int) -> bool {
    forall|k: int|
        0 <= k < loops.len() ==> (#[trigger] loops[k]).break_to < count && loops[k].continue_to
            < count
}

fn push_point(points: &mut Vec<Point>, successors: Vec<usize>, write: Option<VariableId>) -> (res:
    usize)
    requires
        within(point_models(old(points)@), old(points)@.len() as int),
        forall|k: int| 0 <= k < successors@.len() ==> (#[trigger] successors@[k]) < old(
            points,
        )@.len(),
    ensures
        res == old(points)@.len(),
        final(points)@.len() == old(points)@.len() + 1,
        point_models(final(points)@) == point_models(old(points)@).push(point(successors@, write)),
        within(point_models(final(points)@), final(points)@.len() as int),
{
    let ghost before = point_models(points@);
    let ghost list = successors@;
    let id: usize = points.len();
    points.push(Point { successors, write });
    proof {
        let after = point_models(points@);
        assert(after =~= before.push(point(list, write)));
        assert forall|i: int, k: int|
            0 <= i < after.len() && 0 <= k < after[i].successors.len() implies (
        #[trigger] after[i].successors[k]) < after.len() by {
            if i < before.len() {
                assert(before[i].successors[k] < before.len());
            }
        }
    }
    id
}

fn find_label(loops: &Vec<LoopTargets>, label: LoopId) -> (res: Option<usize>)
    ensures
        res == labeled(loops@, label, loops@.len() as int),
        forall|count: int|
            #[trigger] loops_within(loops@, count) && res is Some ==> res->0 < count,
{
    let mut i: usize = loops.len();
    while i > 0
        invariant
            i <= loops@.len(),
            labeled(loops@, label, loops@.len() as int) == labeled(loops@, label, i as int),
        decreases i,
    {
        i = i - 1;
        if let Some(found) = loops[i].label {
            if found == label {
                assert forall|count: int| #[trigger] loops_within(
                    loops@,
                    count,
                ) implies loops@[i as int].continue_to < count by {}
                return Some(loops[i].continue_to);
            }
        }
    }
    None
}

fn slot_written(instr: &IRInst, slots: &Table<VariableId, Register>) -> (res: Option<VariableId>)
    ensures
        res == written_slot(instr.model(), slots@),
{
    let variable: VariableId = match instr {
        IRInst::AssignVariable { variable, .. } => *variable,
        IRInst::Assign { dest: IRExpr::Variable(variable), .. } => *variable,
        _ => return None,
    };
    match slots.get(variable) {
        Some(register) => if register.full_register().number == RAX {
            Some(variable)
        } else {
            None
        },
        None => None,
    }
}

fn one(target: usize) -> (res: Vec<usize>)
    ensures
        res@ == seq![target],
{
    let mut res: Vec<usize> = Vec::new();
    res.push(target);
    assert(res@ =~= seq![target]);
    res
}

/// Where an instruction without inner instructions leads.
fn plain_successors(instr: &IRInst, next: usize, loops: &Vec<LoopTargets>) -> (res: Vec<usize>)
    requires
        !(instr.model() is If),
        !(instr.model() is Loop),
    ensures
        res@ == (match instr.model() {
            InstModel::Break => to_list(
                if loops@.len() > 0 {
                    Some(loops@.last().break_to)
                } else {
                    None
                },
            ),
            InstModel::Continue => to_list(
                if loops@.len() > 0 {
                    Some(loops@.last().continue_to)
                } else {
                    None
                },
            ),
            InstModel::ContinueLoop(label) => to_list(
                labeled(loops@, label, loops@.len() as int),
            ),
            InstModel::Return(_)
            | InstModel::CallSynthetic { .. }
            | InstModel::Jump(_)
            | InstModel::End => Seq::empty(),
            _ => seq![next],
        }),
        forall|count: int, k: int|
            next < count && #[trigger] loops_within(loops@, count) && 0 <= k < res@.len() ==> (
            #[trigger] res@[k]) < count,
{
    match instr {
        IRInst::Break => {
            if loops.len() > 0 {
                one(loops[loops.len() - 1].break_to)
            } else {
                Vec::new()
            }
        },
        IRInst::Continue => {
            if loops.len() > 0 {
                one(loops[loops.len() - 1].continue_to)
            } else {
                Vec::new()
            }
        },
        IRInst::ContinueLoop(label) => match find_label(loops, *label) {
            Some(target) => one(target),
            None => Vec::new(),
        },
        IRInst::Return(_) | IRInst::CallSynthetic { .. } | IRInst::Jump(_) | IRInst::End => {
            Vec::new()
        },
        _ => one(next),
    }
}

#[verifier::rlimit(30)]
fn flow_instruction(
    points: &mut Vec<Point>,
    instr: &IRInst,
    next: usize,
    loops: &Vec<LoopTargets>,
    slots: &Table<VariableId, Register>,
) -> (res: usize)
    requires
        within(point_models(old(points)@), old(points)@.len() as int),
        next < old(points)@.len(),
        loops_within(loops@, old(points)@.len() as int),
    ensures
        (point_models(final(points)@), res) == flow_of(
            instr.model(),
            next,
            loops@,
            slots@,
            point_models(old(points)@),
        ),
        within(point_models(final(points)@), final(points)@.len() as int),
        old(points)@.len() <= final(points)@.len(),
        res < final(points)@.len(),
    decreases instr,
{
    match instr {
        IRInst::If { then_branch, else_branch, .. } => {
            let first: usize = flow_list(points, then_branch, next, loops, slots);
            let second: usize = flow_list(points, else_branch, next, loops, slots);
            let mut successors: Vec<usize> = one(first);
            successors.push(second);
            assert(successors@ =~= seq![first, second]);
            push_point(points, successors, None)
        },
        IRInst::Loop { label, body, .. } => {
            let none: Vec<usize> = Vec::new();
            let ghost none_seq = none@;
            assert(none_seq =~= Seq::<usize>::empty());
            let header: usize = push_point(points, none, None);
            let mut nested: Vec<LoopTargets> = Vec::new();
            let mut i: usize = 0;
            while i < loops.len()
                invariant
                    i <= loops@.len(),
                    nested@ == loops@.subrange(0, i as int),
                decreases loops@.len() - i,
            {
                nested.push(loops[i]);
                i = i + 1;
                assert(nested@ =~= loops@.subrange(0, i as int));
            }
            assert(nested@ =~= loops@);
            nested.push(LoopTargets { label: *label, break_to: next, continue_to: header });
            let start: usize = flow_body(points, body, header, &nested, slots);
            let ghost made = point_models(points@);
            points[header].successors.push(start);
            proof {
                let after = point_models(points@);
                assert(after =~= made.update(
                    header as int,
                    PointModel {
                        successors: made[header as int].successors.push(start),
                        ..made[header as int]
                    },
                ));
                assert forall|i: int, k: int|
                    0 <= i < after.len() && 0 <= k < after[i].successors.len() implies (
                #[trigger] after[i].successors[k]) < after.len() by {
                    if i != header || k < made[i].successors.len() {
                        assert(made[i].successors[k] < made.len());
                    }
                }
            }
            header
        },
        _ => {
            let successors: Vec<usize> = plain_successors(instr, next, loops);
            push_point(points, successors, slot_written(instr, slots))
        },
    }
}

fn flow_list(
    points: &mut Vec<Point>,
    list: &Vec<IRInst>,
    next: usize,
    loops: &Vec<LoopTargets>,
    slots: &Table<VariableId, Register>,
) -> (res: usize)
    requires
        within(point_models(old(points)@), old(points)@.len() as int),
        next < old(points)@.len(),
        loops_within(loops@, old(points)@.len() as int),
    ensures
        (point_models(final(points)@), res) == flow_of_list(
            models(list@),
            next,
            loops@,
            slots@,
            point_models(old(points)@),
        ),
        within(point_models(final(points)@), final(points)@.len() as int),
        old(points)@.len() <= final(points)@.len(),
        res < final(points)@.len(),
    decreases list,
{
    let ghost all = models(list@);
    let ghost start = point_models(points@);
    let ghost count = points@.len();
    let mut current: usize = next;
    let mut i: usize = list.len();
    assert(all.subrange(0, i as int) =~= all);
    while i > 0
        invariant
            i <= list@.len(),
            all == models(list@),
            within(point_models(points@), points@.len() as int),
            count <= points@.len(),
            current < points@.len(),
            loops_within(loops@, count as int),
            flow_of_list(all, next, loops@, slots@, start) == flow_of_list(
                all.subrange(0, i as int),
                current,
                loops@,
                slots@,
                point_models(points@),
            ),
        decreases i,
    {
        let ghost prefix = all.subrange(0, i as int);
        assert(prefix.drop_last() =~= all.subrange(0, i - 1));
        i = i - 1;
        assert(decreases_to!(list => list@[i as int]));
        assert(loops_within(loops@, points@.len() as int));
        current = flow_instruction(points, &list[i], current, loops, slots);
    }
    assert(all.subrange(0, 0) =~= Seq::empty());
    current
}

fn flow_body(
    points: &mut Vec<Point>,
    list: &Vec<(usize, IRInst)>,
    next: usize,
    loops: &Vec<LoopTargets>,
    slots: &Table<VariableId, Register>,
) -> (res: usize)
    requires
        within(point_models(old(points)@), old(points)@.len() as int),
        next < old(points)@.len(),
        loops_within(loops@, old(points)@.len() as int),
    ensures
        (point_models(final(points)@), res) == flow_of_body(
            body_models(list@),
            next,
            loops@,
            slots@,
            point_models(old(points)@),
        ),
        within(point_models(final(points)@), final(points)@.len() as int),
        old(points)@.len() <= final(points)@.len(),
        res < final(points)@.len(),
    decreases list,
{
    let ghost all = body_models(list@);
    let ghost start = point_models(points@);
    let ghost count = points@.len();
    let mut current: usize = next;
    let mut i: usize = list.len();
    assert(all.subrange(0, i as int) =~= all);
    while i > 0
        invariant
            i <= list@.len(),
            all == body_models(list@),
            within(point_models(points@), points@.len() as int),
            count <= points@.len(),
            current < points@.len(),
            loops_within(loops@, count as int),
            flow_of_body(all, next, loops@, slots@, start) == flow_of_body(
                all.subrange(0, i as int),
                current,
                loops@,
                slots@,
                point_models(points@),
            ),
        decreases i,
    {
        let ghost prefix = all.subrange(0, i as int);
        assert(prefix.drop_last() =~= all.subrange(0, i - 1));
        i = i - 1;
        assert(decreases_to!(list => list@[i as int]));
        assert(loops_within(loops@, points@.len() as int));
        current = flow_instruction(points, &list[i].1, current, loops, slots);
    }
    assert(all.subrange(0, 0) =~= Seq::empty());
    current
}

// ---------------------------------------------------------------------------
// States

/// Whether the states account for every edge out of a point.
pub open spec fn accounts_for(points: Seq<PointModel>, states: Seq<State>, id: int) -> bool {
    forall|k: int|
        0 <= k < points[id].successors.len() ==> states[id].after(points[id].write).below(
            states[(#[trigger] points[id].successors[k]) as int],
        )
}

/// Whether the states account for the entry and every edge.
pub open spec fn is_solution(points: Seq<PointModel>, entry: int, states: Seq<State>) -> bool {
    &&& states.len() == points.len()
    &&& states[entry] == State::Unknown
    &&& forall|id: int| 0 <= id < points.len() ==> #[trigger] accounts_for(points, states, id)
}

pub open spec fn all_below(low: Seq<State>, high: Seq<State>) -> bool {
    forall|id: int| 0 <= id < low.len() ==> (#[trigger] low[id]).below(high[id])
}

/// Whether the states are the least that account for everything.
pub open spec fn is_least_solution(
    points: Seq<PointModel>,
    entry: int,
    states: Seq<State>,
) -> bool {
    &&& is_solution(points, entry, states)
    &&& forall|other: Seq<State>| #[trigger]
        is_solution(points, entry, other) ==> all_below(states, other)
}

/// What is known at every point.
pub open spec fn least_states(points: Seq<PointModel>, entry: int) -> Seq<State> {
    choose|states: Seq<State>| is_least_solution(points, entry, states)
}

/// There is only one least solution.
pub proof fn law_least_states_are_unique(
    points: Seq<PointModel>,
    entry: int,
    a: Seq<State>,
    b: Seq<State>,
)
    requires
        is_least_solution(points, entry, a),
        is_least_solution(points, entry, b),
    ensures
        a == b,
{
    assert(all_below(a, b));
    assert(all_below(b, a));
    assert forall|id: int| 0 <= id < a.len() implies a[id] == b[id] by {
        assert(a[id].below(b[id]));
        assert(b[id].below(a[id]));
    }
    assert(a =~= b);
}

/// Whether a state is below what every solution has at a point.
spec fn is_lower(points: Seq<PointModel>, entry: int, id: int, state: State) -> bool {
    forall|other: Seq<State>| #[trigger]
        is_solution(points, entry, other) ==> state.below(other[id])
}

/// The greatest such state.
spec fn greatest_lower(points: Seq<PointModel>, entry: int, id: int) -> State {
    if is_lower(points, entry, id, State::Unknown) {
        State::Unknown
    } else if exists|v: VariableId| #[trigger] is_lower(points, entry, id, State::Slot(v)) {
        State::Slot(choose|v: VariableId| #[trigger] is_lower(points, entry, id, State::Slot(v)))
    } else {
        State::Unreachable
    }
}

proof fn lemma_greatest_lower(points: Seq<PointModel>, entry: int, id: int, state: State)
    ensures
        is_lower(points, entry, id, greatest_lower(points, entry, id)),
        is_lower(points, entry, id, state) ==> state.below(greatest_lower(points, entry, id)),
{
    if !is_lower(points, entry, id, State::Unknown) {
        let some = choose|other: Seq<State>| #[trigger]
            is_solution(points, entry, other) && !State::Unknown.below(other[id]);
        if is_lower(points, entry, id, state) {
            assert(state.below(some[id]));
            if let State::Slot(variable) = state {
                assert(is_lower(points, entry, id, State::Slot(variable)));
            }
        }
    }
}

/// Where every edge stays within the points, something least is known at each.
pub proof fn law_there_are_least_states(points: Seq<PointModel>, entry: int)
    requires
        0 <= entry < points.len(),
        within(points, points.len() as int),
    ensures
        is_least_solution(points, entry, least_states(points, entry)),
{
    let states = Seq::new(points.len(), |id: int| greatest_lower(points, entry, id));
    assert(is_lower(points, entry, entry, State::Unknown));
    assert forall|id: int| 0 <= id < points.len() implies #[trigger] accounts_for(
        points,
        states,
        id,
    ) by {
        assert forall|k: int| 0 <= k < points[id].successors.len() implies states[id].after(
            points[id].write,
        ).below(states[(#[trigger] points[id].successors[k]) as int]) by {
            let target = points[id].successors[k] as int;
            let handed = states[id].after(points[id].write);
            lemma_greatest_lower(points, entry, id, handed);
            assert forall|other: Seq<State>| #[trigger]
                is_solution(points, entry, other) implies handed.below(other[target]) by {
                assert(states[id].below(other[id]));
                assert(accounts_for(points, other, id));
                assert(other[id].after(points[id].write).below(
                    other[points[id].successors[k] as int],
                ));
            }
            lemma_greatest_lower(points, entry, target, handed);
        }
    }
    assert(is_solution(points, entry, states));
    assert forall|other: Seq<State>| #[trigger] is_solution(points, entry, other) implies all_below(
        states,
        other,
    ) by {
        assert forall|id: int| 0 <= id < states.len() implies (#[trigger] states[id]).below(
            other[id],
        ) by {
            lemma_greatest_lower(points, entry, id, State::Unknown);
        }
    }
    assert(is_least_solution(points, entry, states));
}

spec fn total_headroom(states: Seq<State>) -> nat
    decreases states.len(),
{
    if states.len() == 0 {
        0
    } else {
        total_headroom(states.drop_last()) + states.last().headroom()
    }
}

proof fn lemma_headroom_update(states: Seq<State>, at: int, state: State)
    requires
        0 <= at < states.len(),
    ensures
        total_headroom(states.update(at, state)) + states[at].headroom() == total_headroom(states)
            + state.headroom(),
    decreases states.len(),
{
    let after = states.update(at, state);
    if at < states.len() - 1 {
        lemma_headroom_update(states.drop_last(), at, state);
        assert(after.drop_last() =~= states.drop_last().update(at, state));
    } else {
        assert(after.drop_last() =~= states.drop_last());
    }
}

/// What the search keeps: it stays below every solution, and everything but the
/// pending points and `working` is accounted for.
spec fn is_progress(
    points: Seq<PointModel>,
    entry: int,
    states: Seq<State>,
    pending: Seq<usize>,
    working: int,
) -> bool {
    &&& states.len() == points.len()
    &&& 0 <= entry < points.len()
    &&& states[entry] == State::Unknown
    &&& forall|other: Seq<State>| #[trigger]
        is_solution(points, entry, other) ==> all_below(states, other)
    &&& forall|k: int| 0 <= k < pending.len() ==> (#[trigger] pending[k]) < points.len()
    &&& forall|id: int|
        0 <= id < points.len() && id != working && !pending.contains(id as usize)
            ==> #[trigger] accounts_for(points, states, id)
}

/// One edge followed: the target takes the state in, and is pending if that
/// changed it.
fn follow(
    states: &mut Vec<State>,
    pending: &mut Vec<usize>,
    target: usize,
    state: State,
    Ghost(points): Ghost<Seq<PointModel>>,
    Ghost(entry): Ghost<int>,
    Ghost(working): Ghost<int>,
)
    requires
        is_progress(points, entry, old(states)@, old(pending)@, working),
        within(points, points.len() as int),
        points.len() <= usize::MAX,
        target < points.len(),
        forall|other: Seq<State>| #[trigger]
            is_solution(points, entry, other) ==> state.below(other[target as int]),
    ensures
        is_progress(points, entry, final(states)@, final(pending)@, working),
        state.below(final(states)@[target as int]),
        all_below(old(states)@, final(states)@),
        forall|id: usize| old(pending)@.contains(id) ==> #[trigger] final(pending)@.contains(id),
        forall|id: int|
            0 <= id < points.len() && final(states)@[id] != old(states)@[id]
                ==> #[trigger] final(pending)@.contains(id as usize),
        2 * total_headroom(final(states)@) + final(pending)@.len() <= 2 * total_headroom(
            old(states)@,
        ) + old(pending)@.len(),
{
    let joined: State = states[target].join(state);
    if states[target] == joined {
        return;
    }
    let ghost before = states@;
    let ghost waiting = pending@;
    proof {
        lemma_headroom_update(before, target as int, joined);
    }
    states.set(target, joined);
    pending.push(target);
    proof {
        let after = states@;
        let now = pending@;
        assert(now[waiting.len() as int] == target);
        assert forall|id: usize| waiting.contains(id) implies #[trigger] now.contains(id) by {
            let k = choose|k: int| 0 <= k < waiting.len() && waiting[k] == id;
            assert(now[k] == id);
        }
        assert forall|other: Seq<State>| #[trigger]
            is_solution(points, entry, other) implies all_below(after, other) by {
            assert(all_below(before, other));
            assert forall|id: int| 0 <= id < after.len() implies (#[trigger] after[id]).below(
                other[id],
            ) by {
                assert(before[id].below(other[id]));
                if id == target {
                    law_join_is_least(before[id], state, other[id]);
                }
            }
        }
        assert forall|id: int|
            0 <= id < points.len() && id != working && !now.contains(
                id as usize,
            ) implies #[trigger] accounts_for(points, after, id) by {
            assert(!waiting.contains(id as usize));
            assert(accounts_for(points, before, id));
            assert(id != target);
            assert forall|k: int| 0 <= k < points[id].successors.len() implies after[id].after(
                points[id].write,
            ).below(after[(#[trigger] points[id].successors[k]) as int]) by {
                let next = points[id].successors[k] as int;
                assert(before[id].after(points[id].write).below(before[next]));
                law_join_is_least(before[target as int], state, joined);
            }
        }
        assert(entry == target ==> before[entry].joined(state) == State::Unknown);
    }
}

/// What is known at every point.
fn solve(points: &Vec<Point>, entry: usize) -> (res: Vec<State>)
    requires
        within(point_models(points@), points@.len() as int),
        entry < points@.len(),
    ensures
        res@ == least_states(point_models(points@), entry as int),
        is_least_solution(point_models(points@), entry as int, res@),
{
    let ghost all = point_models(points@);
    let total: usize = points.len();
    let mut states: Vec<State> = Vec::new();
    let mut i: usize = 0;
    while i < total
        invariant
            i <= total,
            states@.len() == i,
            forall|k: int| 0 <= k < i ==> (#[trigger] states@[k]) == State::Unreachable,
        decreases total - i,
    {
        states.push(State::Unreachable);
        i = i + 1;
    }
    states.set(entry, State::Unknown);
    let mut pending: Vec<usize> = Vec::new();
    pending.push(entry);
    proof {
        assert(pending@[0] == entry);
        assert forall|other: Seq<State>| #[trigger]
            is_solution(all, entry as int, other) implies all_below(states@, other) by {
            assert forall|id: int| 0 <= id < states@.len() implies (#[trigger] states@[id]).below(
                other[id],
            ) by {
                if id == entry {
                    assert(other[id] == State::Unknown);
                }
            }
        }
    }
    while pending.len() > 0
        invariant
            total == points@.len(),
            all == point_models(points@),
            within(all, total as int),
            is_progress(all, entry as int, states@, pending@, -1),
        decreases 2 * total_headroom(states@) + pending@.len(),
    {
        let ghost waiting = pending@;
        let id: usize = match pending.pop() {
            Some(id) => id,
            None => return states,
        };
        let start: State = states[id];
        let ghost initial = states@;
        proof {
            assert(waiting.last() == id);
            assert forall|other: int|
                0 <= other < all.len() && other != id && !pending@.contains(
                    other as usize,
                ) implies #[trigger] accounts_for(all, states@, other) by {
                if waiting.contains(other as usize) {
                    let k = choose|k: int| 0 <= k < waiting.len() && waiting[k] == other as usize;
                    assert(pending@[k] == other as usize);
                }
            }
        }
        let ghost measure = 2 * total_headroom(states@) + pending@.len();
        assert(all[id as int] == points@[id as int].model());
        let successors = &points[id].successors;
        let after: State = if start == State::Unreachable {
            start
        } else {
            match points[id].write {
                Some(variable) => State::Slot(variable),
                None => start,
            }
        };
        let mut j: usize = 0;
        while j < successors.len()
            invariant
                j <= successors@.len(),
                id < total,
                total == points@.len(),
                all == point_models(points@),
                all[id as int].successors == successors@,
                within(all, total as int),
                after == start.after(all[id as int].write),
                is_progress(all, entry as int, states@, pending@, id as int),
                initial[id as int] == start,
                initial.len() == total,
                forall|other: Seq<State>| #[trigger]
                    is_solution(all, entry as int, other) ==> all_below(initial, other),
                states@[id as int] != start ==> pending@.contains(id),
                2 * total_headroom(states@) + pending@.len() <= measure,
                forall|k: int|
                    0 <= k < j ==> after.below(states@[(#[trigger] successors@[k]) as int]),
            decreases successors@.len() - j,
        {
            let target: usize = successors[j];
            assert(all[id as int].successors[j as int] == target);
            assert forall|other: Seq<State>| #[trigger]
                is_solution(all, entry as int, other) implies after.below(other[target as int]) by {
                assert(all_below(initial, other));
                assert(initial[id as int].below(other[id as int]));
                assert(accounts_for(all, other, id as int));
                assert(other[id as int].after(all[id as int].write).below(
                    other[all[id as int].successors[j as int] as int],
                ));
            }
            let ghost before = states@;
            follow(
                &mut states,
                &mut pending,
                target,
                after,
                Ghost(all),
                Ghost(entry as int),
                Ghost(id as int),
            );
            proof {
                if states@[id as int] != before[id as int] {
                    assert(pending@.contains((id as int) as usize));
                }
                assert forall|k: int| 0 <= k < j implies after.below(
                    states@[(#[trigger] successors@[k]) as int],
                ) by {
                    let next = successors@[k] as int;
                    assert(all[id as int].successors[k] == successors@[k]);
                    assert(before[next].below(states@[next]));
                }
            }
            j = j + 1;
        }
        proof {
            assert forall|other: int|
                0 <= other < all.len() && other != -1 && !pending@.contains(
                    other as usize,
                ) implies #[trigger] accounts_for(all, states@, other) by {
                if other == id {
                    assert(states@[id as int] == start);
                    assert forall|k: int|
                        0 <= k < all[id as int].successors.len() implies states@[id as int].after(
                        all[id as int].write,
                    ).below(states@[(#[trigger] all[id as int].successors[k]) as int]) by {
                        assert(successors@[k] == all[id as int].successors[k]);
                    }
                }
            }
        }
    }
    proof {
        assert forall|id: int| 0 <= id < all.len() implies #[trigger] accounts_for(
            all,
            states@,
            id,
        ) by {
            assert(!pending@.contains(id as usize));
        }
        assert(is_least_solution(all, entry as int, states@));
        law_least_states_are_unique(
            all,
            entry as int,
            states@,
            least_states(all, entry as int),
        );
    }
    states
}

// ---------------------------------------------------------------------------
// Rewriting

/// An instruction with its implicit returns named, where its points are numbered
/// from `id`, and the number after them.
pub open spec fn named(instr: InstModel, id: nat, states: Seq<State>) -> (InstModel, nat)
    decreases instr,
{
    match instr {
        InstModel::Return(None) => (
            if id < states.len() {
                match states[id as int] {
                    State::Slot(variable) => InstModel::Return(
                        Some(IRExpr::Variable(variable)),
                    ),
                    _ => instr,
                }
            } else {
                instr
            },
            id + 1,
        ),
        InstModel::If { condition, then_branch, else_branch } => {
            let first = named_list(then_branch, id, states);
            let second = named_list(else_branch, first.1, states);
            (
                InstModel::If { condition, then_branch: first.0, else_branch: second.0 },
                second.1 + 1,
            )
        },
        InstModel::Loop { label, entry_offset, body } => {
            let inner = named_body(body, id + 1, states);
            (InstModel::Loop { label, entry_offset, body: inner.0 }, inner.1)
        },
        _ => (instr, id + 1),
    }
}

pub open spec fn named_list(list: Seq<InstModel>, id: nat, states: Seq<State>) -> (
    Seq<InstModel>,
    nat,
)
    decreases list,
{
    if list.len() == 0 {
        (Seq::empty(), id)
    } else {
        let last = named(list[list.len() - 1], id, states);
        let front = named_list(list.drop_last(), last.1, states);
        (front.0.push(last.0), front.1)
    }
}

pub open spec fn named_body(list: Seq<(usize, InstModel)>, id: nat, states: Seq<State>) -> (
    Seq<(usize, InstModel)>,
    nat,
)
    decreases list,
{
    if list.len() == 0 {
        (Seq::empty(), id)
    } else {
        let item = list[list.len() - 1];
        let last = named(item.1, id, states);
        let front = named_body(list.drop_last(), last.1, states);
        (front.0.push((item.0, last.0)), front.1)
    }
}

/// The points of an instruction are numbered in the same way when the flow is
/// built and when returns are named.
pub proof fn law_points_are_numbered_alike(
    instr: InstModel,
    next: usize,
    loops: Seq<LoopTargets>,
    slots: Map<VariableId, Register>,
    points: Seq<PointModel>,
    states: Seq<State>,
)
    ensures
        flow_of(instr, next, loops, slots, points).0.len() == named(instr, points.len(), states).1,
    decreases instr,
{
    match instr {
        InstModel::If { then_branch, else_branch, .. } => {
            lemma_list_numbered_alike(then_branch, next, loops, slots, points, states);
            let first = flow_of_list(then_branch, next, loops, slots, points);
            lemma_list_numbered_alike(else_branch, next, loops, slots, first.0, states);
            let second = flow_of_list(else_branch, next, loops, slots, first.0);
            assert(flow_of(instr, next, loops, slots, points).0 == second.0.push(
                point(seq![first.1, second.1], None),
            ));
        },
        InstModel::Loop { label, body, .. } => {
            let header = points.len() as usize;
            lemma_body_numbered_alike(
                body,
                header,
                loops.push(LoopTargets { label, break_to: next, continue_to: header }),
                slots,
                points.push(point(Seq::empty(), None)),
                states,
            );
            lemma_names_grow_body(body, points.len() + 1, states);
        },
        _ => {},
    }
}

proof fn lemma_list_numbered_alike(
    list: Seq<InstModel>,
    next: usize,
    loops: Seq<LoopTargets>,
    slots: Map<VariableId, Register>,
    points: Seq<PointModel>,
    states: Seq<State>,
)
    ensures
        flow_of_list(list, next, loops, slots, points).0.len() == named_list(
            list,
            points.len(),
            states,
        ).1,
    decreases list,
{
    if list.len() > 0 {
        let last = list[list.len() - 1];
        law_points_are_numbered_alike(last, next, loops, slots, points, states);
        let made = flow_of(last, next, loops, slots, points);
        lemma_list_numbered_alike(list.drop_last(), made.1, loops, slots, made.0, states);
    }
}

proof fn lemma_body_numbered_alike(
    list: Seq<(usize, InstModel)>,
    next: usize,
    loops: Seq<LoopTargets>,
    slots: Map<VariableId, Register>,
    points: Seq<PointModel>,
    states: Seq<State>,
)
    ensures
        flow_of_body(list, next, loops, slots, points).0.len() == named_body(
            list,
            points.len(),
            states,
        ).1,
    decreases list,
{
    if list.len() > 0 {
        let last = list[list.len() - 1].1;
        law_points_are_numbered_alike(last, next, loops, slots, points, states);
        let made = flow_of(last, next, loops, slots, points);
        lemma_body_numbered_alike(list.drop_last(), made.1, loops, slots, made.0, states);
    }
}

fn step(id: usize, limit: usize) -> (res: usize)
    requires
        id < limit,
    ensures
        res == id + 1,
{
    id + 1
}

fn rewrite(instr: &IRInst, id: usize, states: &Vec<State>) -> (res: (IRInst, usize))
    requires
        named(instr.model(), id as nat, states@).1 <= states@.len(),
    ensures
        (res.0.model(), res.1 as nat) == named(instr.model(), id as nat, states@),
    decreases instr,
{
    match instr {
        IRInst::Return(None) => {
            let replacement: IRInst = match states[id] {
                State::Slot(variable) => IRInst::Return(Some(IRExpr::Variable(variable))),
                _ => IRInst::Return(None),
            };
            (replacement, step(id, states.len()))
        },
        IRInst::If { condition, then_branch, else_branch } => {
            proof {
                let first = named_list(models(then_branch@), id as nat, states@);
                lemma_names_grow_list(models(else_branch@), first.1, states@);
            }
            let (first, id2) = rewrite_list(then_branch, id, states);
            let (second, id3) = rewrite_list(else_branch, id2, states);
            (
                IRInst::If {
                    condition: condition.clone(),
                    then_branch: first,
                    else_branch: second,
                },
                step(id3, states.len()),
            )
        },
        IRInst::Loop { label, entry_offset, body } => {
            proof {
                lemma_names_grow_body(body_models(body@), (id + 1) as nat, states@);
            }
            let (inner, id2) = rewrite_body(body, step(id, states.len()), states);
            (
                IRInst::Loop { label: *label, entry_offset: *entry_offset, body: inner },
                id2,
            )
        },
        _ => (instr.clone(), step(id, states.len())),
    }
}

proof fn lemma_names_grow(instr: InstModel, id: nat, states: Seq<State>)
    ensures
        named(instr, id, states).1 >= id,
    decreases instr,
{
    match instr {
        InstModel::If { then_branch, else_branch, .. } => {
            lemma_names_grow_list(then_branch, id, states);
            lemma_names_grow_list(else_branch, named_list(then_branch, id, states).1, states);
        },
        InstModel::Loop { body, .. } => {
            lemma_names_grow_body(body, id + 1, states);
        },
        _ => {},
    }
}

proof fn lemma_names_grow_list(list: Seq<InstModel>, id: nat, states: Seq<State>)
    ensures
        named_list(list, id, states).1 >= id,
    decreases list,
{
    if list.len() > 0 {
        lemma_names_grow(list[list.len() - 1], id, states);
        lemma_names_grow_list(
            list.drop_last(),
            named(list[list.len() - 1], id, states).1,
            states,
        );
    }
}

proof fn lemma_names_grow_body(list: Seq<(usize, InstModel)>, id: nat, states: Seq<State>)
    ensures
        named_body(list, id, states).1 >= id,
    decreases list,
{
    if list.len() > 0 {
        lemma_names_grow(list[list.len() - 1].1, id, states);
        lemma_names_grow_body(
            list.drop_last(),
            named(list[list.len() - 1].1, id, states).1,
            states,
        );
    }
}

/// The front of a list comes after its back.
proof fn lemma_named_list_parts(list: Seq<InstModel>, id: nat, states: Seq<State>, at: int)
    requires
        0 <= at <= list.len(),
    ensures
        ({
            let back = named_list(list.subrange(at, list.len() as int), id, states);
            let front = named_list(list.subrange(0, at), back.1, states);
            named_list(list, id, states) == (front.0 + back.0, front.1)
        }),
    decreases list.len(),
{
    if at == list.len() {
        assert(list.subrange(at, list.len() as int) =~= Seq::empty());
        assert(list.subrange(0, at) =~= list);
        let front = named_list(list, id, states);
        assert(front.0 + Seq::<InstModel>::empty() =~= front.0);
    } else {
        let last = named(list[list.len() - 1], id, states);
        let rest = list.drop_last();
        lemma_named_list_parts(rest, last.1, states, at);
        let whole = list.subrange(at, list.len() as int);
        assert(whole.drop_last() =~= rest.subrange(at, rest.len() as int));
        assert(rest.subrange(0, at) =~= list.subrange(0, at));
        let back = named_list(rest.subrange(at, rest.len() as int), last.1, states);
        let front = named_list(list.subrange(0, at), back.1, states);
        assert((front.0 + back.0).push(last.0) =~= front.0 + back.0.push(last.0));
    }
}

proof fn lemma_named_body_parts(
    list: Seq<(usize, InstModel)>,
    id: nat,
    states: Seq<State>,
    at: int,
)
    requires
        0 <= at <= list.len(),
    ensures
        ({
            let back = named_body(list.subrange(at, list.len() as int), id, states);
            let front = named_body(list.subrange(0, at), back.1, states);
            named_body(list, id, states) == (front.0 + back.0, front.1)
        }),
    decreases list.len(),
{
    if at == list.len() {
        assert(list.subrange(at, list.len() as int) =~= Seq::empty());
        assert(list.subrange(0, at) =~= list);
        let front = named_body(list, id, states);
        assert(front.0 + Seq::<(usize, InstModel)>::empty() =~= front.0);
    } else {
        let last = named(list[list.len() - 1].1, id, states);
        let rest = list.drop_last();
        lemma_named_body_parts(rest, last.1, states, at);
        let whole = list.subrange(at, list.len() as int);
        assert(whole.drop_last() =~= rest.subrange(at, rest.len() as int));
        assert(rest.subrange(0, at) =~= list.subrange(0, at));
        let back = named_body(rest.subrange(at, rest.len() as int), last.1, states);
        let front = named_body(list.subrange(0, at), back.1, states);
        let item = (list[list.len() - 1].0, last.0);
        assert((front.0 + back.0).push(item) =~= front.0 + back.0.push(item));
    }
}

fn reversed(list: Vec<IRInst>) -> (res: Vec<IRInst>)
    ensures
        models(res@) == models(list@).reverse(),
{
    let ghost all = models(list@);
    let mut list = list;
    let mut res: Vec<IRInst> = Vec::new();
    while list.len() > 0
        invariant
            list@.len() + res@.len() == all.len(),
            forall|k: int| 0 <= k < list@.len() ==> (#[trigger] list@[k]).model() == all[k],
            forall|k: int|
                0 <= k < res@.len() ==> (#[trigger] res@[k]).model() == all[all.len() - 1 - k],
        decreases list@.len(),
    {
        if let Some(instr) = list.pop() {
            res.push(instr);
        }
    }
    assert(models(res@) =~= all.reverse());
    res
}

fn reversed_body(list: Vec<(usize, IRInst)>) -> (res: Vec<(usize, IRInst)>)
    ensures
        body_models(res@) == body_models(list@).reverse(),
{
    let ghost all = body_models(list@);
    let mut list = list;
    let mut res: Vec<(usize, IRInst)> = Vec::new();
    while list.len() > 0
        invariant
            list@.len() + res@.len() == all.len(),
            forall|k: int|
                0 <= k < list@.len() ==> (#[trigger] list@[k]).0 == all[k].0 && list@[k].1.model()
                    == all[k].1,
            forall|k: int|
                0 <= k < res@.len() ==> (#[trigger] res@[k]).0 == all[all.len() - 1 - k].0
                    && res@[k].1.model() == all[all.len() - 1 - k].1,
        decreases list@.len(),
    {
        if let Some(item) = list.pop() {
            res.push(item);
        }
    }
    assert(body_models(res@) =~= all.reverse());
    res
}

fn rewrite_list(list: &Vec<IRInst>, id: usize, states: &Vec<State>) -> (res: (Vec<IRInst>, usize))
    requires
        named_list(models(list@), id as nat, states@).1 <= states@.len(),
    ensures
        (models(res.0@), res.1 as nat) == named_list(models(list@), id as nat, states@),
    decreases list,
{
    let ghost all = models(list@);
    let mut back: Vec<IRInst> = Vec::new();
    let mut current: usize = id;
    let mut i: usize = list.len();
    assert(all.subrange(i as int, all.len() as int) =~= Seq::empty());
    assert(models(back@).reverse() =~= Seq::empty());
    while i > 0
        invariant
            i <= list@.len(),
            all == models(list@),
            named_list(all, id as nat, states@).1 <= states@.len(),
            (models(back@).reverse(), current as nat) == named_list(
                all.subrange(i as int, all.len() as int),
                id as nat,
                states@,
            ),
        decreases i,
    {
        proof {
            lemma_named_list_parts(all, id as nat, states@, i - 1);
            lemma_named_list_parts(all, id as nat, states@, i as int);
            let rest = all.subrange(i - 1, all.len() as int);
            lemma_named_list_parts(rest, id as nat, states@, 1);
            assert(rest.subrange(1, rest.len() as int) =~= all.subrange(
                i as int,
                all.len() as int,
            ));
            let one = rest.subrange(0, 1);
            assert(one.drop_last() =~= Seq::empty());
            assert(one[one.len() - 1] == all[i - 1]);
            reveal_with_fuel(named_list, 2);
            assert(named_list(one, current as nat, states@).1 == named(
                all[i - 1],
                current as nat,
                states@,
            ).1);
            let back_named = named_list(rest, id as nat, states@);
            lemma_names_grow_list(all.subrange(0, i - 1), back_named.1, states@);
        }
        i = i - 1;
        assert(decreases_to!(list => list@[i as int]));
        let ghost before = models(back@);
        let (instr, next) = rewrite(&list[i], current, states);
        let ghost model = instr.model();
        back.push(instr);
        current = next;
        proof {
            assert(models(back@) =~= before.push(model));
            assert(models(back@).reverse() =~= seq![model] + before.reverse());
            let one = all.subrange(i as int, all.len() as int).subrange(0, 1);
            assert(named_list(one.drop_last(), current as nat, states@).0.push(model) =~= seq![
                model,
            ]);
        }
    }
    assert(all.subrange(0, all.len() as int) =~= all);
    let res: Vec<IRInst> = reversed(back);
    (res, current)
}

fn rewrite_body(list: &Vec<(usize, IRInst)>, id: usize, states: &Vec<State>) -> (res: (
    Vec<(usize, IRInst)>,
    usize,
))
    requires
        named_body(body_models(list@), id as nat, states@).1 <= states@.len(),
    ensures
        (body_models(res.0@), res.1 as nat) == named_body(
            body_models(list@),
            id as nat,
            states@,
        ),
    decreases list,
{
    let ghost all = body_models(list@);
    let mut back: Vec<(usize, IRInst)> = Vec::new();
    let mut current: usize = id;
    let mut i: usize = list.len();
    assert(all.subrange(i as int, all.len() as int) =~= Seq::empty());
    assert(body_models(back@).reverse() =~= Seq::empty());
    while i > 0
        invariant
            i <= list@.len(),
            all == body_models(list@),
            named_body(all, id as nat, states@).1 <= states@.len(),
            (body_models(back@).reverse(), current as nat) == named_body(
                all.subrange(i as int, all.len() as int),
                id as nat,
                states@,
            ),
        decreases i,
    {
        proof {
            lemma_named_body_parts(all, id as nat, states@, i - 1);
            lemma_named_body_parts(all, id as nat, states@, i as int);
            let rest = all.subrange(i - 1, all.len() as int);
            lemma_named_body_parts(rest, id as nat, states@, 1);
            assert(rest.subrange(1, rest.len() as int) =~= all.subrange(
                i as int,
                all.len() as int,
            ));
            let one = rest.subrange(0, 1);
            assert(one.drop_last() =~= Seq::empty());
            assert(one[one.len() - 1] == all[i - 1]);
            reveal_with_fuel(named_body, 2);
            assert(named_body(one, current as nat, states@).1 == named(
                all[i - 1].1,
                current as nat,
                states@,
            ).1);
            let back_named = named_body(rest, id as nat, states@);
            lemma_names_grow_body(all.subrange(0, i - 1), back_named.1, states@);
        }
        i = i - 1;
        assert(decreases_to!(list => list@[i as int]));
        let ghost before = body_models(back@);
        let offset: usize = list[i].0;
        let (instr, next) = rewrite(&list[i].1, current, states);
        let ghost model = (offset, instr.model());
        back.push((offset, instr));
        current = next;
        proof {
            assert(body_models(back@) =~= before.push(model));
            assert(body_models(back@).reverse() =~= seq![model] + before.reverse());
            let one = all.subrange(i as int, all.len() as int).subrange(0, 1);
            assert(named_body(one.drop_last(), current as nat, states@).0.push(model) =~= seq![
                model,
            ]);
        }
    }
    assert(all.subrange(0, all.len() as int) =~= all);
    let res: Vec<(usize, IRInst)> = reversed_body(back);
    (res, current)
}

/// The flow of a function, and its entry. The first point is the end.
pub open spec fn function_flow(function: FunctionModel) -> (Seq<PointModel>, usize) {
    flow_of_body(
        function.body,
        0,
        Seq::empty(),
        register_slots(function),
        seq![point(Seq::empty(), None)],
    )
}

/// A function with its implicit returns named.
pub open spec fn returns_named(function: FunctionModel) -> FunctionModel {
    let flow = function_flow(function);
    FunctionModel {
        body: named_body(function.body, 1, least_states(flow.0, flow.1 as int)).0,
        ..function
    }
}

fn rewrite_function(function: &mut SyntheticFunction)
    ensures
        final(function).model() == returns_named(old(function).model()),
{
    let slots: Table<VariableId, Register> = collect_slots(function);
    let ghost model = function.model();
    let mut points: Vec<Point> = Vec::new();
    assert(point_models(points@) =~= Seq::<PointModel>::empty());
    let none: Vec<usize> = Vec::new();
    let ghost none_seq = none@;
    assert(none_seq =~= Seq::<usize>::empty());
    push_point(&mut points, none, None);
    let ghost first = point_models(points@);
    assert(first =~= seq![point(Seq::empty(), None)]);
    let loops: Vec<LoopTargets> = Vec::new();
    assert(loops@ =~= Seq::<LoopTargets>::empty());
    let entry: usize = flow_body(&mut points, &function.body, 0, &loops, &slots);
    let states: Vec<State> = solve(&points, entry);
    proof {
        lemma_body_numbered_alike(model.body, 0, loops@, slots@, first, states@);
    }
    let (body, _) = rewrite_body(&function.body, 1, &states);
    function.body = body;
}

pub open spec fn program_returns_named(program: ProgramModel) -> ProgramModel {
    ProgramModel {
        functions: program.functions.map_values(|f: FunctionModel| returns_named(f)),
        ..program
    }
}

/// Names the value of every implicit return whose paths agree on it.
pub fn tr(program: Program) -> (res: Program)
    ensures
        res.model() == program_returns_named(program.model()),
{
    let ghost before = function_models(program.functions@);
    let ghost initial = program;
    let mut program = program;
    let total: usize = program.functions.len();
    let mut i: usize = 0;
    while i < total
        invariant
            i <= total,
            total == program.functions@.len(),
            total == before.len(),
            program.entry_address == initial.entry_address,
            program.entry == initial.entry,
            program.data == initial.data,
            forall|k: int|
                0 <= k < i ==> (#[trigger] program.functions@[k]).model() == returns_named(
                    before[k],
                ),
            forall|k: int|
                i <= k < total ==> (#[trigger] program.functions@[k]).model() == before[k],
        decreases total - i,
    {
        rewrite_function(&mut program.functions[i]);
        i = i + 1;
    }
    assert(function_models(program.functions@) =~= before.map_values(
        |f: FunctionModel| returns_named(f),
    ));
    program
}

} // verus!
