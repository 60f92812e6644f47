//! Move a local into the sole branch that uses it when its initialization
//! can safely follow the branch condition.
use super::effects::{
    expression_effects, expression_reads, instruction_effects, is_repeatable, repeatable, Effects,
};
use super::ir::{
    body_models, clone_body, function_models, models, FunctionModel, IRBinOpKind, IRExpr, IRInst,
    InstModel, Parameter, Program, ProgramModel, VariableId,
};
use super::lists::{
    depth, depth_body, depth_list, lemma_depth_bound, lemma_item_depth, lemma_tagged, tag, tagged,
    untag, untagged,
};
use crate::table::KeySet;
use vstd::prelude::*;

verus! {

/// Whether an instruction reads or writes a variable.
pub open spec fn is_mentioned(instr: InstModel, variable: VariableId) -> bool {
    instruction_effects(instr).reads.contains(variable) || instruction_effects(
        instr,
    ).writes.contains(variable)
}

pub fn mentions(instr: &IRInst, variable: VariableId) -> (res: bool)
    ensures
        res == is_mentioned(instr.model(), variable),
{
    let effects: Effects = Effects::of_instruction(instr);
    effects.reads.contains(variable) || effects.writes.contains(variable)
}

/// Whether the variable is mentioned from an item of a body on.
pub open spec fn is_mentioned_from(
    list: Seq<(usize, InstModel)>,
    from: int,
    variable: VariableId,
) -> bool {
    exists|k: int| from <= k < list.len() && is_mentioned((#[trigger] list[k]).1, variable)
}

pub open spec fn is_mentioned_in(list: Seq<InstModel>, variable: VariableId) -> bool {
    exists|k: int| 0 <= k < list.len() && is_mentioned(#[trigger] list[k], variable)
}

fn mentioned_from(list: &Vec<(usize, IRInst)>, from: usize, variable: VariableId) -> (res: bool)
    ensures
        res == is_mentioned_from(body_models(list@), from as int, variable),
{
    let ghost all = body_models(list@);
    let mut k: usize = from;
    while k < list.len()
        invariant
            from <= k,
            all == body_models(list@),
            forall|j: int|
                from <= j < k && j < list@.len() ==> !is_mentioned((#[trigger] all[j]).1, variable),
        decreases list@.len() - k,
    {
        if mentions(&list[k].1, variable) {
            assert(is_mentioned(all[k as int].1, variable));
            return true;
        }
        k = k + 1;
    }
    false
}

fn mentioned_in(list: &Vec<IRInst>, variable: VariableId) -> (res: bool)
    ensures
        res == is_mentioned_in(models(list@), variable),
{
    let ghost all = models(list@);
    let mut k: usize = 0;
    while k < list.len()
        invariant
            k <= list@.len(),
            all == models(list@),
            forall|j: int| 0 <= j < k ==> !is_mentioned(#[trigger] all[j], variable),
        decreases list@.len() - k,
    {
        if mentions(&list[k], variable) {
            assert(is_mentioned(all[k as int], variable));
            return true;
        }
        k = k + 1;
    }
    false
}

pub open spec fn is_zero(expr: IRExpr) -> bool {
    expr == IRExpr::CU8(0) || expr == IRExpr::CU32(0) || expr == IRExpr::CU64(0)
}

fn zero(expr: &IRExpr) -> (res: bool)
    ensures
        res == is_zero(*expr),
{
    match expr {
        IRExpr::CU8(value) => *value == 0,
        IRExpr::CU32(value) => *value == 0,
        IRExpr::CU64(value) => *value == 0,
        _ => false,
    }
}

/// The base of a load of the first byte of a sequence.
pub open spec fn first_byte_base(value: IRExpr) -> Option<IRExpr> {
    match value {
        IRExpr::Deref(address) => match *address {
            IRExpr::ElementAddress { base, index, element_size } => if element_size == 1 && is_zero(
                *index,
            ) && (*base is Argument || *base is Variable) {
                Some(*base)
            } else {
                None
            },
            _ => None,
        },
        _ => None,
    }
}

/// Whether a condition tests the length of a string against zero.
pub open spec fn tests_length(condition: IRExpr, base: IRExpr) -> bool {
    match condition {
        IRExpr::BinOp { kind, lhs, rhs } => (kind == IRBinOpKind::Eq || kind == IRBinOpKind::Ne)
            && ((*lhs == IRExpr::CStringLength(Box::new(base)) && is_zero(*rhs)) || (*rhs
            == IRExpr::CStringLength(Box::new(base)) && is_zero(*lhs))),
        _ => false,
    }
}

fn length_of(expr: &IRExpr, base: &IRExpr) -> (res: bool)
    ensures
        res == (*expr == IRExpr::CStringLength(Box::new(*base))),
{
    match expr {
        IRExpr::CStringLength(source) => source.same(base),
        _ => false,
    }
}

/// A length check must read element zero to decide either outcome. The load of
/// the first byte can therefore follow that check on its sole live path.
fn covered_first_byte_load(value: &IRExpr, condition: &IRExpr) -> (res: bool)
    ensures
        res == (first_byte_base(*value) matches Some(base) && tests_length(*condition, base)),
{
    if let IRExpr::Deref(address) = value {
        let inner: &IRExpr = address;
        if let IRExpr::ElementAddress { base, index, element_size } = inner {
            let direct: bool = match &**base {
                IRExpr::Argument(_) => true,
                IRExpr::Variable(_) => true,
                _ => false,
            };
            if *element_size == 1 && zero(index) && direct {
                if let IRExpr::BinOp { kind, lhs, rhs } = condition {
                    return (*kind == IRBinOpKind::Eq || *kind == IRBinOpKind::Ne) && ((length_of(
                        lhs,
                        base,
                    ) && zero(rhs)) || (length_of(rhs, base) && zero(lhs)));
                }
            }
        }
    }
    false
}

/// Whether a declaration may follow a condition.
pub open spec fn may_follow(initializer: InstModel, condition: IRExpr) -> bool {
    match initializer {
        InstModel::DeclareVariable { .. } => true,
        InstModel::DeclareAndAssignVariable { variable, value, .. } => !expression_effects(
            value,
        ).reads.contains(variable) && (is_repeatable(value) || (first_byte_base(
            value,
        ) matches Some(base) && tests_length(condition, base))),
        _ => false,
    }
}

fn movable(initializer: &IRInst, condition: &IRExpr) -> (res: bool)
    ensures
        res == may_follow(initializer.model(), *condition),
{
    match initializer {
        IRInst::DeclareVariable { .. } => true,
        IRInst::DeclareAndAssignVariable { variable, value, .. } => !expression_reads(
            value,
            *variable,
        ) && (repeatable(value) || covered_first_byte_load(value, condition)),
        _ => false,
    }
}

/// The variable that an instruction declares.
pub open spec fn declared_variable(instr: InstModel) -> Option<VariableId> {
    match instr {
        InstModel::DeclareVariable { variable, .. } => Some(variable),
        InstModel::DeclareAndAssignVariable { variable, .. } => Some(variable),
        _ => None,
    }
}

/// The branch of the next instruction that a declaration moves to: `true` for the
/// first one.
pub open spec fn destination(
    list: Seq<(usize, InstModel)>,
    index: int,
    parameters: Set<VariableId>,
) -> Option<bool> {
    match (declared_variable(list[index].1), list[index + 1].1) {
        (Some(variable), InstModel::If { condition, then_branch, else_branch }) => {
            let then_uses = is_mentioned_in(then_branch, variable);
            let else_uses = is_mentioned_in(else_branch, variable);
            if parameters.contains(variable) || expression_effects(condition).reads.contains(
                variable,
            ) || !may_follow(list[index].1, condition) || is_mentioned_from(
                list,
                index + 2,
                variable,
            ) || then_uses == else_uses {
                None
            } else {
                Some(then_uses)
            }
        },
        _ => None,
    }
}

/// A branch with an initializer before the instructions of one side.
pub open spec fn with_initializer(
    instr: InstModel,
    initializer: InstModel,
    into_then: bool,
) -> InstModel {
    match instr {
        InstModel::If { condition, then_branch, else_branch } => if into_then {
            InstModel::If {
                condition,
                then_branch: then_branch.insert(0, initializer),
                else_branch,
            }
        } else {
            InstModel::If {
                condition,
                then_branch,
                else_branch: else_branch.insert(0, initializer),
            }
        },
        _ => instr,
    }
}

pub open spec fn placed(list: Seq<(usize, InstModel)>, index: int, into_then: bool) -> Seq<
    (usize, InstModel),
> {
    list.remove(index).update(
        index,
        (
            list[index + 1].0,
            with_initializer(list[index + 1].1, list[index].1, into_then),
        ),
    )
}

/// The list with its own locals moved, from an item on. After a move the next
/// declaration may be adjacent to the same branch.
pub open spec fn moved(
    list: Seq<(usize, InstModel)>,
    index: nat,
    parameters: Set<VariableId>,
) -> Seq<(usize, InstModel)>
    decreases list.len() - index,
{
    if index + 1 >= list.len() {
        list
    } else {
        match destination(list, index as int, parameters) {
            Some(into_then) => moved(placed(list, index as int, into_then), index, parameters),
            None => moved(list, index + 1, parameters),
        }
    }
}

proof fn lemma_inserted_depth(list: Seq<InstModel>, instr: InstModel)
    requires
        depth(instr) == 0,
    ensures
        depth_list(list.insert(0, instr)) == depth_list(list),
    decreases list.len(),
{
    let more = list.insert(0, instr);
    if list.len() > 0 {
        lemma_inserted_depth(list.drop_last(), instr);
        assert(more.drop_last() =~= list.drop_last().insert(0, instr));
        assert(more[more.len() - 1] == list[list.len() - 1]);
    } else {
        assert(more.drop_last() =~= Seq::empty());
        assert(depth_list(more.drop_last()) == 0);
        assert(more[0] == instr);
    }
}

/// Moving locals makes no list deeper.
pub proof fn lemma_moved_depth(
    list: Seq<(usize, InstModel)>,
    index: nat,
    parameters: Set<VariableId>,
)
    ensures
        depth_body(moved(list, index, parameters)) <= depth_body(list),
    decreases list.len() - index,
{
    if index + 1 < list.len() {
        match destination(list, index as int, parameters) {
            Some(into_then) => {
                let next = placed(list, index as int, into_then);
                if let InstModel::If { condition, then_branch, else_branch } = list[index as int + 1].1 {
                    lemma_inserted_depth(then_branch, list[index as int].1);
                    lemma_inserted_depth(else_branch, list[index as int].1);
                }
                assert forall|i: int| 0 <= i < next.len() implies depth((#[trigger] next[i]).1)
                    <= depth_body(list) by {
                    lemma_item_depth(
                        list,
                        if i < index {
                            i
                        } else {
                            i + 1
                        },
                    );
                }
                lemma_depth_bound(next, depth_body(list));
                lemma_moved_depth(next, index, parameters);
            },
            None => {
                lemma_moved_depth(list, index + 1, parameters);
            },
        }
    }
}

/// The list with the locals in it and in its lists moved.
pub open spec fn relocated(list: Seq<(usize, InstModel)>, parameters: Set<VariableId>) -> Seq<
    (usize, InstModel),
>
    decreases depth_body(list), 2int, 0nat,
{
    proof {
        lemma_moved_depth(list, 0, parameters);
    }
    relocated_children(moved(list, 0, parameters), parameters)
}

/// An instruction with the locals in its lists moved.
pub open spec fn relocated_child(
    offset: usize,
    instr: InstModel,
    parameters: Set<VariableId>,
) -> InstModel
    decreases depth(instr), 0int, 0nat,
{
    match instr {
        InstModel::If { condition, then_branch, else_branch } => {
            proof {
                lemma_tagged(then_branch, offset);
                lemma_tagged(else_branch, offset);
            }
            let first = relocated(tagged(then_branch, offset), parameters);
            let second = relocated(tagged(else_branch, offset), parameters);
            InstModel::If { condition, then_branch: untagged(first), else_branch: untagged(second) }
        },
        InstModel::While { label, entry_offset, condition, body } => {
            let inner = relocated(body, parameters);
            InstModel::While { label, entry_offset, condition, body: inner }
        },
        InstModel::ForEach {
            entry_offset,
            condition_offset,
            advance_offset,
            load_offset,
            variable,
            element_type,
            vector,
            start,
            index_bits,
            body,
        } => {
            let inner = relocated(body, parameters);
            InstModel::ForEach {
                entry_offset,
                condition_offset,
                advance_offset,
                load_offset,
                variable,
                element_type,
                vector,
                start,
                index_bits,
                body: inner,
            }
        },
        _ => instr,
    }
}

pub open spec fn relocated_children(
    list: Seq<(usize, InstModel)>,
    parameters: Set<VariableId>,
) -> Seq<(usize, InstModel)>
    decreases depth_body(list), 1int, list.len(),
{
    if list.len() == 0 {
        Seq::empty()
    } else {
        let before = relocated_children(list.drop_last(), parameters);
        let item = list[list.len() - 1];
        let child = relocated_child(item.0, item.1, parameters);
        before.push((item.0, child))
    }
}

fn relocate_child(offset: usize, instr: &IRInst, parameters: &KeySet<VariableId>) -> (res: IRInst)
    ensures
        res.model() == relocated_child(offset, instr.model(), parameters@),
    decreases depth(instr.model()), 0int, 0nat,
{
    match instr {
        IRInst::If { condition, then_branch, else_branch } => {
            proof {
                lemma_tagged(models(then_branch@), offset);
                lemma_tagged(models(else_branch@), offset);
            }
            let first: Vec<(usize, IRInst)> = relocate(tag(then_branch, offset), parameters);
            let second: Vec<(usize, IRInst)> = relocate(tag(else_branch, offset), parameters);
            IRInst::If {
                condition: condition.clone(),
                then_branch: untag(first),
                else_branch: untag(second),
            }
        },
        IRInst::While { label, entry_offset, condition, body } => IRInst::While {
            label: *label,
            entry_offset: *entry_offset,
            condition: condition.clone(),
            body: relocate(clone_body(body), parameters),
        },
        IRInst::ForEach {
            entry_offset,
            condition_offset,
            advance_offset,
            load_offset,
            variable,
            element_type,
            vector,
            start,
            index_bits,
            body,
        } => IRInst::ForEach {
            entry_offset: *entry_offset,
            condition_offset: *condition_offset,
            advance_offset: *advance_offset,
            load_offset: *load_offset,
            variable: *variable,
            element_type: element_type.clone(),
            vector: vector.clone(),
            start: *start,
            index_bits: *index_bits,
            body: relocate(clone_body(body), parameters),
        },
        _ => instr.clone(),
    }
}

fn relocate_children(
    list: &Vec<(usize, IRInst)>,
    parameters: &KeySet<VariableId>,
) -> (res: Vec<(usize, IRInst)>)
    ensures
        body_models(res@) == relocated_children(body_models(list@), parameters@),
    decreases depth_body(body_models(list@)), 1int, list@.len(),
{
    let ghost all = body_models(list@);
    let mut res: Vec<(usize, IRInst)> = Vec::new();
    assert(all.subrange(0, 0) =~= Seq::empty());
    assert(body_models(res@) =~= Seq::empty());
    let mut i: usize = 0;
    while i < list.len()
        invariant
            i <= list@.len(),
            all == body_models(list@),
            body_models(res@) == relocated_children(all.subrange(0, i as int), parameters@),
        decreases list@.len() - i,
    {
        let ghost prefix = all.subrange(0, i + 1);
        assert(prefix.drop_last() =~= all.subrange(0, i as int));
        proof {
            lemma_item_depth(all, i as int);
        }
        let ghost before = body_models(res@);
        let child: IRInst = relocate_child(list[i].0, &list[i].1, parameters);
        res.push((list[i].0, child));
        assert(body_models(res@) =~= before.push((all[i as int].0, child.model())));
        i = i + 1;
    }
    assert(all.subrange(0, i as int) =~= all);
    res
}


fn find_destination(
    list: &Vec<(usize, IRInst)>,
    index: usize,
    parameters: &KeySet<VariableId>,
) -> (res: Option<bool>)
    requires
        index + 1 < list@.len(),
    ensures
        res == destination(body_models(list@), index as int, parameters@),
{
    let total: usize = list.len();
    let ghost all = body_models(list@);
    assert(all[index as int].1 == list@[index as int].1.model());
    assert(all[index + 1].1 == list@[index + 1].1.model());
    let variable: VariableId = match &list[index].1 {
        IRInst::DeclareVariable { variable, .. } => *variable,
        IRInst::DeclareAndAssignVariable { variable, .. } => *variable,
        _ => return None,
    };
    match &list[index + 1].1 {
        IRInst::If { condition, then_branch, else_branch } => {
            if parameters.contains(variable) || expression_reads(condition, variable) || !movable(
                &list[index].1,
                condition,
            ) {
                return None;
            }
            if index + 1 < total - 1 && mentioned_from(list, index + 2, variable) {
                return None;
            }
            let then_uses: bool = mentioned_in(then_branch, variable);
            let else_uses: bool = mentioned_in(else_branch, variable);
            if then_uses == else_uses {
                None
            } else {
                Some(then_uses)
            }
        },
        _ => None,
    }
}

fn place(list: &mut Vec<(usize, IRInst)>, index: usize, into_then: bool)
    requires
        index + 1 < old(list)@.len(),
    ensures
        body_models(final(list)@) == placed(body_models(old(list)@), index as int, into_then),
        final(list)@.len() == old(list)@.len() - 1,
{
    let ghost before = list@;
    let (_, initializer) = list.remove(index);
    let (offset, next) = list.remove(index);
    let made: IRInst = match next {
        IRInst::If { condition, then_branch, else_branch } => {
            let mut first: Vec<IRInst> = then_branch;
            let mut second: Vec<IRInst> = else_branch;
            let ghost firsts = models(first@);
            let ghost seconds = models(second@);
            let ghost start = initializer.model();
            if into_then {
                first.insert(0, initializer);
                assert(models(first@) =~= firsts.insert(0, start));
            } else {
                second.insert(0, initializer);
                assert(models(second@) =~= seconds.insert(0, start));
            }
            IRInst::If { condition, then_branch: first, else_branch: second }
        },
        other => other,
    };
    list.insert(index, (offset, made));
    assert(body_models(list@) =~= placed(body_models(before), index as int, into_then));
}

fn relocate(list: Vec<(usize, IRInst)>, parameters: &KeySet<VariableId>) -> (res: Vec<
    (usize, IRInst),
>)
    ensures
        body_models(res@) == relocated(body_models(list@), parameters@),
    decreases depth_body(body_models(list@)), 2int, 0nat,
{
    let ghost start = body_models(list@);
    let mut list: Vec<(usize, IRInst)> = list;
    let mut index: usize = 0;
    while index < list.len() && index + 1 < list.len()
        invariant
            moved(start, 0, parameters@) == moved(body_models(list@), index as nat, parameters@),
        decreases list@.len() - index,
    {
        match find_destination(&list, index, parameters) {
            Some(into_then) => {
                place(&mut list, index, into_then);
            },
            None => {
                index = index + 1;
            },
        }
    }
    proof {
        lemma_moved_depth(start, 0, parameters@);
    }
    relocate_children(&list, parameters)
}

/// The variables that a function gets from its callers.
pub open spec fn slot_parameters(parameters: Seq<Parameter>) -> Set<VariableId>
    decreases parameters.len(),
{
    if parameters.len() == 0 {
        Set::empty()
    } else {
        match parameters.last() {
            Parameter::Slot { variable, .. } => slot_parameters(parameters.drop_last()).insert(
                variable,
            ),
            Parameter::Argument { .. } => slot_parameters(parameters.drop_last()),
        }
    }
}

pub fn collect_parameters(parameters: &Vec<Parameter>) -> (res: KeySet<VariableId>)
    ensures
        res@ == slot_parameters(parameters@),
{
    let mut res: KeySet<VariableId> = KeySet::new();
    assert(parameters@.subrange(0, 0) =~= Seq::empty());
    let mut i: usize = 0;
    while i < parameters.len()
        invariant
            i <= parameters@.len(),
            res@ == slot_parameters(parameters@.subrange(0, i as int)),
        decreases parameters@.len() - i,
    {
        let ghost prefix = parameters@.subrange(0, i + 1);
        assert(prefix.drop_last() =~= parameters@.subrange(0, i as int));
        if let Parameter::Slot { variable, .. } = &parameters[i] {
            res.insert(*variable);
        }
        i = i + 1;
    }
    assert(parameters@.subrange(0, i as int) =~= parameters@);
    res
}

pub open spec fn function_relocated(function: FunctionModel) -> FunctionModel {
    FunctionModel {
        body: relocated(function.body, slot_parameters(function.parameters)),
        ..function
    }
}

/// A program with its locals in the sole branches that use them.
pub open spec fn program_relocated(program: ProgramModel) -> ProgramModel {
    ProgramModel {
        functions: program.functions.map_values(|f: FunctionModel| function_relocated(f)),
        ..program
    }
}

/// Moves the locals of a program into the sole branches that use them.
pub fn run(program: &mut Program)
    ensures
        final(program).model() == program_relocated(old(program).model()),
{
    let ghost before = function_models(program.functions@);
    let ghost initial = *program;
    let total: usize = program.functions.len();
    let mut i: usize = 0;
    while i < total
        invariant
            i <= total,
            total == program.functions@.len(),
            total == before.len(),
            *program == (Program { functions: program.functions, ..initial }),
            forall|k: int|
                0 <= k < i ==> (#[trigger] program.functions@[k]).model() == function_relocated(
                    before[k],
                ),
            forall|k: int|
                i <= k < total ==> (#[trigger] program.functions@[k]).model() == before[k],
        decreases total - i,
    {
        let parameters: KeySet<VariableId> = collect_parameters(&program.functions[i].parameters);
        let body: Vec<(usize, IRInst)> = relocate(
            clone_body(&program.functions[i].body),
            &parameters,
        );
        program.functions[i].body = body;
        i = i + 1;
    }
    assert(program.model().functions =~= program_relocated(initial.model()).functions);
}

} // verus!
