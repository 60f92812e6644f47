//! Dense numbers for the slots of each function, in the order of their first use.
use super::ir::{SyntheticFunctionId, VariableId};
use crate::irt4::ir::{
    body_models, function_models, models, FunctionModel, IRExpr, IRInst, InstModel, LoopCondition,
    Parameter, SyntheticFunction,
};
use crate::irt4::ir as t4;
use vstd::prelude::*;

verus! {

/// The slots in the order of their first use.
pub struct VariableIds {
    slots: Vec<t4::VariableId>,
}

/// The slots with another one, unless it is among them.
pub open spec fn with_slot(ids: Seq<t4::VariableId>, slot: t4::VariableId) -> Seq<t4::VariableId> {
    if ids.contains(slot) {
        ids
    } else {
        ids.push(slot)
    }
}

/// How many slots of the owner come before a slot.
pub open spec fn number_of(ids: Seq<t4::VariableId>, slot: t4::VariableId) -> nat
    decreases ids.len(),
{
    if ids.len() == 0 || ids[0] == slot {
        0
    } else {
        number_of(ids.subrange(1, ids.len() as int), slot) + if ids[0].owner == slot.owner {
            1nat
        } else {
            0nat
        }
    }
}

/// The dense number of a slot within its function.
pub open spec fn translated(ids: Seq<t4::VariableId>, slot: t4::VariableId) -> VariableId {
    VariableId {
        owner: SyntheticFunctionId { id: slot.owner.id },
        id: number_of(ids, slot) as usize,
    }
}

proof fn lemma_number_is_small(ids: Seq<t4::VariableId>, slot: t4::VariableId)
    ensures
        number_of(ids, slot) <= ids.len(),
        ids.contains(slot) ==> number_of(ids, slot) < ids.len(),
    decreases ids.len(),
{
    if ids.len() > 0 && ids[0] != slot {
        let rest = ids.subrange(1, ids.len() as int);
        lemma_number_is_small(rest, slot);
        if ids.contains(slot) {
            let i = choose|i: int| 0 <= i < ids.len() && ids[i] == slot;
            assert(rest[i - 1] == slot);
        }
    }
}

proof fn lemma_numbers_differ(
    ids: Seq<t4::VariableId>,
    a: t4::VariableId,
    b: t4::VariableId,
    i: int,
    j: int,
)
    requires
        0 <= i < j < ids.len(),
        ids[i] == a,
        ids[j] == b,
        a != b,
        a.owner == b.owner,
        forall|k: int| 0 <= k < j ==> #[trigger] ids[k] != b,
        forall|k: int| 0 <= k < i ==> #[trigger] ids[k] != a,
    ensures
        number_of(ids, a) < number_of(ids, b),
    decreases ids.len(),
{
    let rest = ids.subrange(1, ids.len() as int);
    if i == 0 {
        assert(ids[0] == a);
        assert(ids[0] != b);
    } else {
        assert(ids[0] != a);
        assert(ids[0] != b);
        assert forall|k: int| 0 <= k < j - 1 implies #[trigger] rest[k] != b by {
            assert(rest[k] == ids[k + 1]);
        }
        assert forall|k: int| 0 <= k < i - 1 implies #[trigger] rest[k] != a by {
            assert(rest[k] == ids[k + 1]);
        }
        lemma_numbers_differ(rest, a, b, i - 1, j - 1);
    }
}

proof fn lemma_first(ids: Seq<t4::VariableId>, slot: t4::VariableId) -> (at: int)
    requires
        ids.contains(slot),
    ensures
        0 <= at < ids.len(),
        ids[at] == slot,
        forall|k: int| 0 <= k < at ==> #[trigger] ids[k] != slot,
    decreases ids.len(),
{
    if ids[0] == slot {
        0
    } else {
        let rest = ids.subrange(1, ids.len() as int);
        let i = choose|i: int| 0 <= i < ids.len() && ids[i] == slot;
        assert(rest[i - 1] == slot);
        let at = lemma_first(rest, slot);
        assert forall|k: int| 0 <= k < at + 1 implies #[trigger] ids[k] != slot by {
            if k > 0 {
                assert(rest[k - 1] == ids[k]);
            }
        }
        at + 1
    }
}

/// How many slots an owner has.
pub open spec fn owned_slots(ids: Seq<t4::VariableId>, owner: t4::SyntheticFunctionId) -> nat
    decreases ids.len(),
{
    if ids.len() == 0 {
        0
    } else {
        owned_slots(ids.subrange(1, ids.len() as int), owner) + if ids[0].owner == owner {
            1nat
        } else {
            0nat
        }
    }
}

/// Numbers are dense: each below the number of slots of a function is that of one of
/// them.
pub proof fn law_numbers_are_dense(
    ids: Seq<t4::VariableId>,
    owner: t4::SyntheticFunctionId,
    number: nat,
) -> (slot: t4::VariableId)
    requires
        ids.no_duplicates(),
        number < owned_slots(ids, owner),
    ensures
        ids.contains(slot),
        slot.owner == owner,
        number_of(ids, slot) == number,
    decreases ids.len(),
{
    let rest = ids.subrange(1, ids.len() as int);
    if ids[0].owner == owner && number == 0 {
        ids[0]
    } else {
        assert forall|i: int, j: int|
            0 <= i < rest.len() && 0 <= j < rest.len() && i != j implies rest[i] != rest[j] by {
            assert(ids[i + 1] != ids[j + 1]);
        }
        let less: nat = if ids[0].owner == owner {
            (number - 1) as nat
        } else {
            number
        };
        let slot = law_numbers_are_dense(rest, owner, less);
        let i = choose|i: int| 0 <= i < rest.len() && rest[i] == slot;
        assert(ids[i + 1] == slot);
        assert(ids[0] != slot) by {
            assert(ids[0] != ids[i + 1]);
        }
        slot
    }
}

/// Different slots keep different numbers.
pub proof fn law_numbers_are_distinct(
    ids: Seq<t4::VariableId>,
    a: t4::VariableId,
    b: t4::VariableId,
)
    requires
        ids.len() <= usize::MAX,
        ids.contains(a),
        ids.contains(b),
        a != b,
    ensures
        translated(ids, a) != translated(ids, b),
{
    lemma_number_is_small(ids, a);
    lemma_number_is_small(ids, b);
    if a.owner == b.owner {
        let i = lemma_first(ids, a);
        let j = lemma_first(ids, b);
        if i < j {
            lemma_numbers_differ(ids, a, b, i, j);
        } else {
            lemma_numbers_differ(ids, b, a, j, i);
        }
    } else {
        assert(a.owner.id != b.owner.id);
    }
}

impl VariableIds {
    pub closed spec fn model(self) -> Seq<t4::VariableId> {
        self.slots@
    }

    pub fn new() -> (res: Self)
        ensures
            res.model() == Seq::<t4::VariableId>::empty(),
    {
        VariableIds { slots: Vec::new() }
    }

    pub fn add(&mut self, slot: t4::VariableId)
        ensures
            final(self).model() == with_slot(old(self).model(), slot),
    {
        let mut i: usize = 0;
        while i < self.slots.len()
            invariant
                i <= self.slots@.len(),
                self.slots@ == old(self).slots@,
                forall|k: int| 0 <= k < i ==> self.slots@[k] != slot,
            decreases self.slots@.len() - i,
        {
            if self.slots[i] == slot {
                assert(self.slots@.contains(slot));
                return;
            }
            i = i + 1;
        }
        self.slots.push(slot);
    }

    /// The dense number of a slot within its function.
    pub fn translate(&self, source: t4::VariableId) -> (res: VariableId)
        ensures
            res == translated(self.model(), source),
    {
        let ghost all = self.slots@;
        let mut id: usize = 0;
        let mut i: usize = 0;
        assert(all.subrange(0, all.len() as int) =~= all);
        while i < self.slots.len()
            invariant
                i <= self.slots@.len(),
                id <= i,
                all == self.slots@,
                number_of(all, source) == id + number_of(
                    all.subrange(i as int, all.len() as int),
                    source,
                ),
            decreases self.slots@.len() - i,
        {
            let ghost rest = all.subrange(i as int, all.len() as int);
            assert(rest.subrange(1, rest.len() as int) =~= all.subrange(
                i + 1,
                all.len() as int,
            ));
            if self.slots[i] == source {
                return VariableId {
                    owner: SyntheticFunctionId { id: source.owner.id },
                    id,
                };
            }
            if self.slots[i].owner == source.owner {
                id = id + 1;
            }
            i = i + 1;
        }
        VariableId { owner: SyntheticFunctionId { id: source.owner.id }, id }
    }
}

/// The slots with those of an expression.
pub open spec fn slots_with(expr: IRExpr, ids: Seq<t4::VariableId>) -> Seq<t4::VariableId>
    decreases expr,
{
    match expr {
        IRExpr::BinOp { lhs, rhs, .. } => slots_with(*rhs, slots_with(*lhs, ids)),
        IRExpr::Deref(address) => slots_with(*address, ids),
        IRExpr::CastUnknownPtr { address, .. } => slots_with(*address, ids),
        IRExpr::Convert { value, .. } => slots_with(*value, ids),
        IRExpr::Variable(variable) => with_slot(ids, variable),
        IRExpr::Not(inner) => slots_with(*inner, ids),
        _ => ids,
    }
}

fn expression_slots(expr: &IRExpr, ids: &mut VariableIds)
    ensures
        final(ids).model() == slots_with(*expr, old(ids).model()),
    decreases expr,
{
    match expr {
        IRExpr::BinOp { lhs, rhs, .. } => {
            expression_slots(lhs, ids);
            expression_slots(rhs, ids);
        },
        IRExpr::Deref(address) => {
            expression_slots(address, ids);
        },
        IRExpr::CastUnknownPtr { address, .. } => {
            expression_slots(address, ids);
        },
        IRExpr::Convert { value, .. } => {
            expression_slots(value, ids);
        },
        IRExpr::Variable(variable) => {
            ids.add(*variable);
        },
        IRExpr::Not(inner) => {
            expression_slots(inner, ids);
        },
        _ => {},
    }
}

pub open spec fn slots_with_all(list: Seq<IRExpr>, ids: Seq<t4::VariableId>) -> Seq<t4::VariableId>
    decreases list.len(),
{
    if list.len() == 0 {
        ids
    } else {
        slots_with(list.last(), slots_with_all(list.drop_last(), ids))
    }
}

fn expression_slots_all(list: &Vec<IRExpr>, ids: &mut VariableIds)
    ensures
        final(ids).model() == slots_with_all(list@, old(ids).model()),
{
    let ghost start = ids.model();
    assert(list@.subrange(0, 0) =~= Seq::empty());
    let mut i: usize = 0;
    while i < list.len()
        invariant
            i <= list@.len(),
            ids.model() == slots_with_all(list@.subrange(0, i as int), start),
        decreases list@.len() - i,
    {
        let ghost prefix = list@.subrange(0, i + 1);
        assert(prefix.drop_last() =~= list@.subrange(0, i as int));
        expression_slots(&list[i], ids);
        i = i + 1;
    }
    assert(list@.subrange(0, i as int) =~= list@);
}

/// The slots with those of an instruction.
pub open spec fn used_with(instr: InstModel, ids: Seq<t4::VariableId>) -> Seq<t4::VariableId>
    decreases instr,
{
    match instr {
        InstModel::Assign { dest, src } => slots_with(src, slots_with(dest, ids)),
        InstModel::Return(value) => match value {
            Some(value) => slots_with(value, ids),
            None => ids,
        },
        InstModel::DeclareVariable { variable, .. } => with_slot(ids, variable),
        InstModel::DeclareAndAssignVariable { variable, value, .. } => slots_with(
            value,
            with_slot(ids, variable),
        ),
        InstModel::AssignVariable { variable, value } => slots_with(
            value,
            with_slot(ids, variable),
        ),
        InstModel::LoadVariable { variable, address } => slots_with(
            address,
            with_slot(ids, variable),
        ),
        InstModel::StoreVariable { address, variable } => with_slot(
            slots_with(address, ids),
            variable,
        ),
        InstModel::If { condition, then_branch, else_branch } => used_with_list(
            else_branch,
            used_with_list(then_branch, slots_with(condition, ids)),
        ),
        InstModel::While { condition, body, .. } => used_with_body(
            body,
            slots_with(condition.check(), ids),
        ),
        InstModel::CallSynthetic { arguments, .. } => slots_with_all(arguments, ids),
        InstModel::Jump(target) => slots_with(target, ids),
        _ => ids,
    }
}

pub open spec fn used_with_list(
    list: Seq<InstModel>,
    ids: Seq<t4::VariableId>,
) -> Seq<t4::VariableId>
    decreases list,
{
    if list.len() == 0 {
        ids
    } else {
        used_with(list[list.len() - 1], used_with_list(list.drop_last(), ids))
    }
}

pub open spec fn used_with_body(
    list: Seq<(usize, InstModel)>,
    ids: Seq<t4::VariableId>,
) -> Seq<t4::VariableId>
    decreases list,
{
    if list.len() == 0 {
        ids
    } else {
        used_with(list[list.len() - 1].1, used_with_body(list.drop_last(), ids))
    }
}

fn instruction_slots(instr: &IRInst, ids: &mut VariableIds)
    ensures
        final(ids).model() == used_with(instr.model(), old(ids).model()),
    decreases instr,
{
    match instr {
        IRInst::Assign { dest, src } => {
            expression_slots(dest, ids);
            expression_slots(src, ids);
        },
        IRInst::Return(value) => {
            if let Some(value) = value {
                expression_slots(value, ids);
            }
        },
        IRInst::DeclareVariable { variable, .. } => {
            ids.add(*variable);
        },
        IRInst::DeclareAndAssignVariable { variable, value, .. } => {
            ids.add(*variable);
            expression_slots(value, ids);
        },
        IRInst::AssignVariable { variable, value } => {
            ids.add(*variable);
            expression_slots(value, ids);
        },
        IRInst::LoadVariable { variable, address } => {
            ids.add(*variable);
            expression_slots(address, ids);
        },
        IRInst::StoreVariable { address, variable } => {
            expression_slots(address, ids);
            ids.add(*variable);
        },
        IRInst::If { condition, then_branch, else_branch } => {
            expression_slots(condition, ids);
            instruction_slots_list(then_branch, ids);
            instruction_slots_list(else_branch, ids);
        },
        IRInst::While { condition, body, .. } => {
            match condition {
                LoopCondition::Before { expression, .. } => expression_slots(expression, ids),
                LoopCondition::After { expression, .. } => expression_slots(expression, ids),
            }
            instruction_slots_body(body, ids);
        },
        IRInst::CallSynthetic { arguments, .. } => {
            expression_slots_all(arguments, ids);
        },
        IRInst::Jump(target) => {
            expression_slots(target, ids);
        },
        _ => {},
    }
}

fn instruction_slots_list(list: &Vec<IRInst>, ids: &mut VariableIds)
    ensures
        final(ids).model() == used_with_list(models(list@), old(ids).model()),
    decreases list,
{
    let ghost all = models(list@);
    let ghost start = ids.model();
    assert(all.subrange(0, 0) =~= Seq::empty());
    let mut i: usize = 0;
    while i < list.len()
        invariant
            i <= list@.len(),
            all == models(list@),
            ids.model() == used_with_list(all.subrange(0, i as int), start),
        decreases list@.len() - i,
    {
        let ghost prefix = all.subrange(0, i + 1);
        assert(prefix.drop_last() =~= all.subrange(0, i as int));
        assert(decreases_to!(list => list@[i as int]));
        instruction_slots(&list[i], ids);
        i = i + 1;
    }
    assert(all.subrange(0, i as int) =~= all);
}

fn instruction_slots_body(list: &Vec<(usize, IRInst)>, ids: &mut VariableIds)
    ensures
        final(ids).model() == used_with_body(body_models(list@), old(ids).model()),
    decreases list,
{
    let ghost all = body_models(list@);
    let ghost start = ids.model();
    assert(all.subrange(0, 0) =~= Seq::empty());
    let mut i: usize = 0;
    while i < list.len()
        invariant
            i <= list@.len(),
            all == body_models(list@),
            ids.model() == used_with_body(all.subrange(0, i as int), start),
        decreases list@.len() - i,
    {
        let ghost prefix = all.subrange(0, i + 1);
        assert(prefix.drop_last() =~= all.subrange(0, i as int));
        assert(decreases_to!(list => list@[i as int]));
        instruction_slots(&list[i].1, ids);
        i = i + 1;
    }
    assert(all.subrange(0, i as int) =~= all);
}


/// The slots with those of the first `count` parameters.
pub open spec fn parameters_with(
    parameters: Seq<Parameter>,
    ids: Seq<t4::VariableId>,
    count: int,
) -> Seq<t4::VariableId>
    decreases count,
{
    if count <= 0 {
        ids
    } else {
        let before = parameters_with(parameters, ids, count - 1);
        match parameters[count - 1] {
            Parameter::Slot { variable, .. } => with_slot(before, variable),
            Parameter::Argument { .. } => before,
        }
    }
}

/// The slots of the first `count` functions.
pub open spec fn slots_of(functions: Seq<FunctionModel>, count: int) -> Seq<t4::VariableId>
    decreases count,
{
    if count <= 0 {
        Seq::empty()
    } else {
        used_with_body(
            functions[count - 1].body,
            parameters_with(
                functions[count - 1].parameters,
                slots_of(functions, count - 1),
                functions[count - 1].parameters.len() as int,
            ),
        )
    }
}

/// The slots of a program in the order of their first use.
pub open spec fn all_slots(functions: Seq<FunctionModel>) -> Seq<t4::VariableId> {
    slots_of(functions, functions.len() as int)
}

/// The slots of a program in the order of their first use.
pub fn collect(functions: &Vec<SyntheticFunction>) -> (res: VariableIds)
    ensures
        res.model() == all_slots(function_models(functions@)),
{
    let ghost all = function_models(functions@);
    let mut ids: VariableIds = VariableIds::new();
    let mut i: usize = 0;
    while i < functions.len()
        invariant
            i <= functions@.len(),
            all == function_models(functions@),
            ids.model() == slots_of(all, i as int),
        decreases functions@.len() - i,
    {
        assert(all[i as int] == functions@[i as int].model());
        let ghost start = ids.model();
        let parameters = &functions[i].parameters;
        let mut j: usize = 0;
        while j < parameters.len()
            invariant
                j <= parameters@.len(),
                ids.model() == parameters_with(parameters@, start, j as int),
            decreases parameters@.len() - j,
        {
            if let Parameter::Slot { variable, .. } = parameters[j] {
                ids.add(variable);
            }
            j = j + 1;
        }
        instruction_slots_body(&functions[i].body, &mut ids);
        i = i + 1;
    }
    ids
}

proof fn lemma_listed_once(expr: IRExpr, ids: Seq<t4::VariableId>)
    requires
        ids.no_duplicates(),
    ensures
        slots_with(expr, ids).no_duplicates(),
    decreases expr,
{
    match expr {
        IRExpr::BinOp { lhs, rhs, .. } => {
            lemma_listed_once(*lhs, ids);
            lemma_listed_once(*rhs, slots_with(*lhs, ids));
        },
        IRExpr::Deref(address) => lemma_listed_once(*address, ids),
        IRExpr::CastUnknownPtr { address, .. } => lemma_listed_once(*address, ids),
        IRExpr::Convert { value, .. } => lemma_listed_once(*value, ids),
        IRExpr::Not(inner) => lemma_listed_once(*inner, ids),
        _ => {},
    }
}

proof fn lemma_listed_once_all(list: Seq<IRExpr>, ids: Seq<t4::VariableId>)
    requires
        ids.no_duplicates(),
    ensures
        slots_with_all(list, ids).no_duplicates(),
    decreases list.len(),
{
    if list.len() > 0 {
        lemma_listed_once_all(list.drop_last(), ids);
        lemma_listed_once(list.last(), slots_with_all(list.drop_last(), ids));
    }
}

proof fn lemma_used_once(instr: InstModel, ids: Seq<t4::VariableId>)
    requires
        ids.no_duplicates(),
    ensures
        used_with(instr, ids).no_duplicates(),
    decreases instr,
{
    match instr {
        InstModel::Assign { dest, src } => {
            lemma_listed_once(dest, ids);
            lemma_listed_once(src, slots_with(dest, ids));
        },
        InstModel::Return(Some(value)) => lemma_listed_once(value, ids),
        InstModel::DeclareAndAssignVariable { variable, value, .. } => {
            lemma_listed_once(value, with_slot(ids, variable));
        },
        InstModel::AssignVariable { variable, value } => {
            lemma_listed_once(value, with_slot(ids, variable));
        },
        InstModel::LoadVariable { variable, address } => {
            lemma_listed_once(address, with_slot(ids, variable));
        },
        InstModel::StoreVariable { address, .. } => lemma_listed_once(address, ids),
        InstModel::If { condition, then_branch, else_branch } => {
            let tested = slots_with(condition, ids);
            lemma_listed_once(condition, ids);
            lemma_used_once_list(then_branch, tested);
            lemma_used_once_list(else_branch, used_with_list(then_branch, tested));
        },
        InstModel::While { condition, body, .. } => {
            lemma_listed_once(condition.check(), ids);
            lemma_used_once_body(body, slots_with(condition.check(), ids));
        },
        InstModel::CallSynthetic { arguments, .. } => lemma_listed_once_all(arguments, ids),
        InstModel::Jump(target) => lemma_listed_once(target, ids),
        _ => {},
    }
}

proof fn lemma_used_once_list(list: Seq<InstModel>, ids: Seq<t4::VariableId>)
    requires
        ids.no_duplicates(),
    ensures
        used_with_list(list, ids).no_duplicates(),
    decreases list,
{
    if list.len() > 0 {
        lemma_used_once_list(list.drop_last(), ids);
        lemma_used_once(list[list.len() - 1], used_with_list(list.drop_last(), ids));
    }
}

proof fn lemma_used_once_body(list: Seq<(usize, InstModel)>, ids: Seq<t4::VariableId>)
    requires
        ids.no_duplicates(),
    ensures
        used_with_body(list, ids).no_duplicates(),
    decreases list,
{
    if list.len() > 0 {
        lemma_used_once_body(list.drop_last(), ids);
        lemma_used_once(list[list.len() - 1].1, used_with_body(list.drop_last(), ids));
    }
}

proof fn lemma_parameters_once(
    parameters: Seq<Parameter>,
    ids: Seq<t4::VariableId>,
    count: int,
)
    requires
        ids.no_duplicates(),
    ensures
        parameters_with(parameters, ids, count).no_duplicates(),
    decreases count,
{
    if count > 0 {
        lemma_parameters_once(parameters, ids, count - 1);
    }
}

proof fn lemma_functions_once(functions: Seq<FunctionModel>, count: int)
    ensures
        slots_of(functions, count).no_duplicates(),
    decreases count,
{
    if count > 0 {
        let function = functions[count - 1];
        let before = slots_of(functions, count - 1);
        let all = function.parameters.len() as int;
        lemma_functions_once(functions, count - 1);
        lemma_parameters_once(function.parameters, before, all);
        lemma_used_once_body(function.body, parameters_with(function.parameters, before, all));
    }
}

/// Every slot of a program is listed once.
pub proof fn law_slots_are_listed_once(functions: Seq<FunctionModel>)
    ensures
        all_slots(functions).no_duplicates(),
{
    lemma_functions_once(functions, functions.len() as int);
}

} // verus!
