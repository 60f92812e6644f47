//! Turn synthetic self-transfers into explicit loops.
use super::ir::{
    body_models, function_models, models, FunctionModel, IRExpr, IRInst, InstModel, Parameter,
    Program, ProgramModel, SyntheticFunction, SyntheticFunctionId, VariableId, VariableType,
};
use crate::numbers::Numbers;
use crate::table::{KeySet, Table};
use crate::x86::Register;
use vstd::prelude::*;

verus! {

/// A value that the loop carries from one round to the next.
#[derive(Clone, Copy, Debug, PartialEq, Eq, Structural)]
pub struct LoopParameter {
    pub variable: VariableId,
    /// The register that it comes in, or its width where it comes in none.
    pub ty: VariableType,
}

/// The width of a value of a type, as far as the type tells.
pub open spec fn type_width(ty: VariableType) -> Option<usize> {
    match ty {
        VariableType::Unknown(size) => size,
        VariableType::Register(register) => Some(register.width()),
        VariableType::Bool => Some(1),
    }
}

fn width_of_type(ty: VariableType) -> (res: Option<usize>)
    ensures
        res == type_width(ty),
{
    match ty {
        VariableType::Unknown(size) => size,
        VariableType::Register(register) => Some(register.size()),
        VariableType::Bool => Some(1),
    }
}

// ---------------------------------------------------------------------------
// Aliases

/// The alias recorded for a variable, among those from a position on.
pub open spec fn alias_from(
    aliases: Seq<(VariableId, VariableId)>,
    variable: VariableId,
    from: int,
) -> Option<VariableId>
    decreases aliases.len() - from,
{
    if from < 0 || from >= aliases.len() {
        None
    } else if aliases[from].0 == variable {
        Some(aliases[from].1)
    } else {
        alias_from(aliases, variable, from + 1)
    }
}

fn find_alias(aliases: &Vec<(VariableId, VariableId)>, variable: VariableId) -> (res: Option<
    VariableId,
>)
    ensures
        res == alias_from(aliases@, variable, 0),
{
    let mut i: usize = 0;
    while i < aliases.len()
        invariant
            i <= aliases@.len(),
            alias_from(aliases@, variable, 0) == alias_from(aliases@, variable, i as int),
        decreases aliases@.len() - i,
    {
        if aliases[i].0 == variable {
            return Some(aliases[i].1);
        }
        i = i + 1;
    }
    None
}

/// The variable at the end of a chain of at most `remaining` aliases.
pub open spec fn followed(
    aliases: Seq<(VariableId, VariableId)>,
    variable: VariableId,
    remaining: nat,
) -> VariableId
    decreases remaining,
{
    match alias_from(aliases, variable, 0) {
        Some(next) => if next == variable || remaining == 0 {
            variable
        } else {
            followed(aliases, next, (remaining - 1) as nat)
        },
        None => variable,
    }
}

/// The variable that stands for this one.
pub open spec fn canonical(
    variable: VariableId,
    aliases: Seq<(VariableId, VariableId)>,
) -> VariableId {
    followed(aliases, variable, aliases.len())
}

pub fn canonical_variable(variable: VariableId, aliases: &Vec<(VariableId, VariableId)>) -> (res:
    VariableId)
    ensures
        res == canonical(variable, aliases@),
{
    let mut current: VariableId = variable;
    let mut remaining: usize = aliases.len();
    loop
        invariant
            remaining <= aliases@.len(),
            canonical(variable, aliases@) == followed(aliases@, current, remaining as nat),
        decreases remaining,
    {
        match find_alias(aliases, current) {
            Some(next) => {
                if next == current || remaining == 0 {
                    return current;
                }
                current = next;
                remaining = remaining - 1;
            },
            None => {
                return current;
            },
        }
    }
}

/// The aliases with two chains joined.
pub open spec fn with_alias(
    aliases: Seq<(VariableId, VariableId)>,
    source: VariableId,
    target: VariableId,
) -> Seq<(VariableId, VariableId)> {
    let source = canonical(source, aliases);
    let target = canonical(target, aliases);
    if source == target {
        aliases
    } else {
        aliases.push((source, target))
    }
}

pub fn add_alias(
    source: VariableId,
    target: VariableId,
    aliases: &mut Vec<(VariableId, VariableId)>,
)
    ensures
        final(aliases)@ == with_alias(old(aliases)@, source, target),
{
    let source: VariableId = canonical_variable(source, aliases);
    let target: VariableId = canonical_variable(target, aliases);
    if source != target {
        aliases.push((source, target));
    }
}

// ---------------------------------------------------------------------------
// Slots and merges

/// The register slots with those that an instruction declares.
pub open spec fn slots_with(
    instr: InstModel,
    slots: Map<VariableId, Register>,
) -> Map<VariableId, Register>
    decreases instr,
{
    match instr {
        InstModel::DeclareVariable { variable, ty } => match ty {
            VariableType::Register(register) => slots.insert(variable, register),
            _ => slots,
        },
        InstModel::If { then_branch, else_branch, .. } => slots_with_list(
            else_branch,
            slots_with_list(then_branch, slots),
        ),
        InstModel::Loop { body, .. } => slots_with_body(body, slots),
        _ => slots,
    }
}

pub open spec fn slots_with_list(
    list: Seq<InstModel>,
    slots: Map<VariableId, Register>,
) -> Map<VariableId, Register>
    decreases list,
{
    if list.len() == 0 {
        slots
    } else {
        slots_with(list[list.len() - 1], slots_with_list(list.drop_last(), slots))
    }
}

pub open spec fn slots_with_body(
    list: Seq<(usize, InstModel)>,
    slots: Map<VariableId, Register>,
) -> Map<VariableId, Register>
    decreases list,
{
    if list.len() == 0 {
        slots
    } else {
        slots_with(list[list.len() - 1].1, slots_with_body(list.drop_last(), slots))
    }
}

pub fn collect_register_slots(instr: &IRInst, slots: &mut Table<VariableId, Register>)
    ensures
        final(slots)@ == slots_with(instr.model(), old(slots)@),
    decreases instr,
{
    match instr {
        IRInst::DeclareVariable { variable, ty } => {
            if let VariableType::Register(register) = ty {
                slots.insert(*variable, *register);
            }
        },
        IRInst::If { then_branch, else_branch, .. } => {
            collect_register_slots_list(then_branch, slots);
            collect_register_slots_list(else_branch, slots);
        },
        IRInst::Loop { body, .. } => {
            collect_register_slots_body(body, slots);
        },
        _ => {},
    }
}

pub fn collect_register_slots_list(list: &Vec<IRInst>, slots: &mut Table<VariableId, Register>)
    ensures
        final(slots)@ == slots_with_list(models(list@), old(slots)@),
    decreases list,
{
    let ghost all = models(list@);
    let ghost start = slots@;
    assert(all.subrange(0, 0) =~= Seq::empty());
    let mut i: usize = 0;
    while i < list.len()
        invariant
            i <= list@.len(),
            all == models(list@),
            slots@ == slots_with_list(all.subrange(0, i as int), start),
        decreases list@.len() - i,
    {
        let ghost prefix = all.subrange(0, i + 1);
        assert(prefix.drop_last() =~= all.subrange(0, i as int));
        assert(decreases_to!(list => list@[i as int]));
        collect_register_slots(&list[i], slots);
        i = i + 1;
    }
    assert(all.subrange(0, i as int) =~= all);
}

pub fn collect_register_slots_body(
    list: &Vec<(usize, IRInst)>,
    slots: &mut Table<VariableId, Register>,
)
    ensures
        final(slots)@ == slots_with_body(body_models(list@), old(slots)@),
    decreases list,
{
    let ghost all = body_models(list@);
    let ghost start = slots@;
    assert(all.subrange(0, 0) =~= Seq::empty());
    let mut i: usize = 0;
    while i < list.len()
        invariant
            i <= list@.len(),
            all == body_models(list@),
            slots@ == slots_with_body(all.subrange(0, i as int), start),
        decreases list@.len() - i,
    {
        let ghost prefix = all.subrange(0, i + 1);
        assert(prefix.drop_last() =~= all.subrange(0, i as int));
        assert(decreases_to!(list => list@[i as int]));
        collect_register_slots(&list[i].1, slots);
        i = i + 1;
    }
    assert(all.subrange(0, i as int) =~= all);
}

/// The aliases with those between the arguments of a self-call and the
/// parameters that they are for.
pub open spec fn merged_arguments(
    aliases: Seq<(VariableId, VariableId)>,
    arguments: Seq<IRExpr>,
    parameters: Seq<LoopParameter>,
    slots: Map<VariableId, Register>,
    count: int,
) -> Seq<(VariableId, VariableId)>
    decreases count,
{
    if count <= 0 {
        aliases
    } else {
        let before = merged_arguments(aliases, arguments, parameters, slots, count - 1);
        match arguments[count - 1] {
            IRExpr::Variable(variable) => if slots.dom().contains(variable)
                && parameters[count - 1].ty == VariableType::Register(slots[variable]) {
                with_alias(before, variable, parameters[count - 1].variable)
            } else {
                before
            },
            _ => before,
        }
    }
}

pub open spec fn shorter(a: nat, b: nat) -> int {
    if a <= b {
        a as int
    } else {
        b as int
    }
}

fn merge_arguments(
    arguments: &Vec<IRExpr>,
    aliases: &mut Vec<(VariableId, VariableId)>,
    parameters: &Vec<LoopParameter>,
    slots: &Table<VariableId, Register>,
)
    ensures
        final(aliases)@ == merged_arguments(
            old(aliases)@,
            arguments@,
            parameters@,
            slots@,
            shorter(arguments@.len(), parameters@.len()),
        ),
{
    let ghost start = aliases@;
    let mut i: usize = 0;
    while i < arguments.len() && i < parameters.len()
        invariant
            i <= arguments@.len(),
            i <= parameters@.len(),
            aliases@ == merged_arguments(start, arguments@, parameters@, slots@, i as int),
        decreases arguments@.len() - i,
    {
        if let IRExpr::Variable(variable) = &arguments[i] {
            if let Some(register) = slots.get(*variable) {
                if parameters[i].ty == VariableType::Register(*register) {
                    add_alias(*variable, parameters[i].variable, aliases);
                }
            }
        }
        i = i + 1;
    }
}

/// The aliases with those of the self-calls in an instruction.
pub open spec fn merged(
    instr: InstModel,
    aliases: Seq<(VariableId, VariableId)>,
    id: SyntheticFunctionId,
    parameters: Seq<LoopParameter>,
    slots: Map<VariableId, Register>,
) -> Seq<(VariableId, VariableId)>
    decreases instr,
{
    match instr {
        InstModel::If { then_branch, else_branch, .. } => merged_list(
            else_branch,
            merged_list(then_branch, aliases, id, parameters, slots),
            id,
            parameters,
            slots,
        ),
        InstModel::Loop { body, .. } => merged_body(body, aliases, id, parameters, slots),
        InstModel::CallSynthetic { function, arguments } => if function == id {
            merged_arguments(
                aliases,
                arguments,
                parameters,
                slots,
                shorter(arguments.len(), parameters.len()),
            )
        } else {
            aliases
        },
        _ => aliases,
    }
}

pub open spec fn merged_list(
    list: Seq<InstModel>,
    aliases: Seq<(VariableId, VariableId)>,
    id: SyntheticFunctionId,
    parameters: Seq<LoopParameter>,
    slots: Map<VariableId, Register>,
) -> Seq<(VariableId, VariableId)>
    decreases list,
{
    if list.len() == 0 {
        aliases
    } else {
        merged(
            list[list.len() - 1],
            merged_list(list.drop_last(), aliases, id, parameters, slots),
            id,
            parameters,
            slots,
        )
    }
}

pub open spec fn merged_body(
    list: Seq<(usize, InstModel)>,
    aliases: Seq<(VariableId, VariableId)>,
    id: SyntheticFunctionId,
    parameters: Seq<LoopParameter>,
    slots: Map<VariableId, Register>,
) -> Seq<(VariableId, VariableId)>
    decreases list,
{
    if list.len() == 0 {
        aliases
    } else {
        merged(
            list[list.len() - 1].1,
            merged_body(list.drop_last(), aliases, id, parameters, slots),
            id,
            parameters,
            slots,
        )
    }
}

fn collect_merges(
    instr: &IRInst,
    aliases: &mut Vec<(VariableId, VariableId)>,
    id: SyntheticFunctionId,
    parameters: &Vec<LoopParameter>,
    slots: &Table<VariableId, Register>,
)
    ensures
        final(aliases)@ == merged(instr.model(), old(aliases)@, id, parameters@, slots@),
    decreases instr,
{
    match instr {
        IRInst::If { then_branch, else_branch, .. } => {
            collect_merges_list(then_branch, aliases, id, parameters, slots);
            collect_merges_list(else_branch, aliases, id, parameters, slots);
        },
        IRInst::Loop { body, .. } => {
            collect_merges_body(body, aliases, id, parameters, slots);
        },
        IRInst::CallSynthetic { function, arguments } => {
            if *function == id {
                merge_arguments(arguments, aliases, parameters, slots);
            }
        },
        _ => {},
    }
}

fn collect_merges_list(
    list: &Vec<IRInst>,
    aliases: &mut Vec<(VariableId, VariableId)>,
    id: SyntheticFunctionId,
    parameters: &Vec<LoopParameter>,
    slots: &Table<VariableId, Register>,
)
    ensures
        final(aliases)@ == merged_list(models(list@), old(aliases)@, id, parameters@, slots@),
    decreases list,
{
    let ghost all = models(list@);
    let ghost start = aliases@;
    assert(all.subrange(0, 0) =~= Seq::empty());
    let mut i: usize = 0;
    while i < list.len()
        invariant
            i <= list@.len(),
            all == models(list@),
            aliases@ == merged_list(all.subrange(0, i as int), start, id, parameters@, slots@),
        decreases list@.len() - i,
    {
        let ghost prefix = all.subrange(0, i + 1);
        assert(prefix.drop_last() =~= all.subrange(0, i as int));
        assert(decreases_to!(list => list@[i as int]));
        collect_merges(&list[i], aliases, id, parameters, slots);
        i = i + 1;
    }
    assert(all.subrange(0, i as int) =~= all);
}

fn collect_merges_body(
    list: &Vec<(usize, IRInst)>,
    aliases: &mut Vec<(VariableId, VariableId)>,
    id: SyntheticFunctionId,
    parameters: &Vec<LoopParameter>,
    slots: &Table<VariableId, Register>,
)
    ensures
        final(aliases)@ == merged_body(body_models(list@), old(aliases)@, id, parameters@, slots@),
    decreases list,
{
    let ghost all = body_models(list@);
    let ghost start = aliases@;
    assert(all.subrange(0, 0) =~= Seq::empty());
    let mut i: usize = 0;
    while i < list.len()
        invariant
            i <= list@.len(),
            all == body_models(list@),
            aliases@ == merged_body(all.subrange(0, i as int), start, id, parameters@, slots@),
        decreases list@.len() - i,
    {
        let ghost prefix = all.subrange(0, i + 1);
        assert(prefix.drop_last() =~= all.subrange(0, i as int));
        assert(decreases_to!(list => list@[i as int]));
        collect_merges(&list[i].1, aliases, id, parameters, slots);
        i = i + 1;
    }
    assert(all.subrange(0, i as int) =~= all);
}

// ---------------------------------------------------------------------------
// Renaming

/// The expression over canonical variables, with the arguments replaced
/// by the variables that carry them.
pub open spec fn renamed(
    expr: IRExpr,
    aliases: Seq<(VariableId, VariableId)>,
    natives: Map<usize, VariableId>,
) -> IRExpr
    decreases expr,
{
    match expr {
        IRExpr::BinOp { kind, lhs, rhs } => IRExpr::BinOp {
            kind,
            lhs: Box::new(renamed(*lhs, aliases, natives)),
            rhs: Box::new(renamed(*rhs, aliases, natives)),
        },
        IRExpr::Deref(address) => IRExpr::Deref(Box::new(renamed(*address, aliases, natives))),
        IRExpr::CastUnknownPtr { address, size } => IRExpr::CastUnknownPtr {
            address: Box::new(renamed(*address, aliases, natives)),
            size,
        },
        IRExpr::Argument(ordinal) => if natives.dom().contains(ordinal) {
            IRExpr::Variable(natives[ordinal])
        } else {
            expr
        },
        IRExpr::Convert { value, source, target } => IRExpr::Convert {
            value: Box::new(renamed(*value, aliases, natives)),
            source,
            target,
        },
        IRExpr::Variable(variable) => IRExpr::Variable(canonical(variable, aliases)),
        IRExpr::Not(inner) => IRExpr::Not(Box::new(renamed(*inner, aliases, natives))),
        _ => expr,
    }
}

pub open spec fn renamed_all(
    list: Seq<IRExpr>,
    aliases: Seq<(VariableId, VariableId)>,
    natives: Map<usize, VariableId>,
) -> Seq<IRExpr> {
    Seq::new(list.len(), |i: int| renamed(list[i], aliases, natives))
}

fn rewrite_expression(
    expr: &IRExpr,
    aliases: &Vec<(VariableId, VariableId)>,
    natives: &Table<usize, VariableId>,
) -> (res: IRExpr)
    ensures
        res == renamed(*expr, aliases@, natives@),
    decreases expr,
{
    match expr {
        IRExpr::BinOp { kind, lhs, rhs } => IRExpr::BinOp {
            kind: *kind,
            lhs: Box::new(rewrite_expression(lhs, aliases, natives)),
            rhs: Box::new(rewrite_expression(rhs, aliases, natives)),
        },
        IRExpr::Deref(address) => IRExpr::Deref(
            Box::new(rewrite_expression(address, aliases, natives)),
        ),
        IRExpr::CastUnknownPtr { address, size } => IRExpr::CastUnknownPtr {
            address: Box::new(rewrite_expression(address, aliases, natives)),
            size: *size,
        },
        IRExpr::Argument(ordinal) => match natives.get(*ordinal) {
            Some(variable) => IRExpr::Variable(*variable),
            None => IRExpr::Argument(*ordinal),
        },
        IRExpr::Convert { value, source, target } => IRExpr::Convert {
            value: Box::new(rewrite_expression(value, aliases, natives)),
            source: *source,
            target: *target,
        },
        IRExpr::Variable(variable) => IRExpr::Variable(canonical_variable(*variable, aliases)),
        IRExpr::Not(inner) => IRExpr::Not(Box::new(rewrite_expression(inner, aliases, natives))),
        _ => expr.clone(),
    }
}

fn rewrite_expression_all(
    list: &Vec<IRExpr>,
    aliases: &Vec<(VariableId, VariableId)>,
    natives: &Table<usize, VariableId>,
) -> (res: Vec<IRExpr>)
    ensures
        res@ == renamed_all(list@, aliases@, natives@),
{
    let mut res: Vec<IRExpr> = Vec::new();
    let mut i: usize = 0;
    while i < list.len()
        invariant
            i <= list@.len(),
            res@.len() == i,
            forall|k: int| 0 <= k < i ==> (#[trigger] res@[k]) == renamed(
                list@[k],
                aliases@,
                natives@,
            ),
        decreases list@.len() - i,
    {
        res.push(rewrite_expression(&list[i], aliases, natives));
        i = i + 1;
    }
    assert(res@ =~= renamed_all(list@, aliases@, natives@));
    res
}

/// The instruction over canonical variables.
pub open spec fn renamed_inst(
    instr: InstModel,
    aliases: Seq<(VariableId, VariableId)>,
    natives: Map<usize, VariableId>,
) -> InstModel
    decreases instr,
{
    match instr {
        InstModel::Assign { dest, src } => InstModel::Assign {
            dest: renamed(dest, aliases, natives),
            src: renamed(src, aliases, natives),
        },
        InstModel::Return(value) => InstModel::Return(match value {
                Some(value) => Some(renamed(value, aliases, natives)),
                None => None,
            }),
        InstModel::DeclareVariable { variable, ty } => InstModel::DeclareVariable {
            variable: canonical(variable, aliases),
            ty,
        },
        InstModel::AssignVariable { variable, value } => InstModel::AssignVariable {
            variable: canonical(variable, aliases),
            value: renamed(value, aliases, natives),
        },
        InstModel::LoadVariable { variable, address } => InstModel::LoadVariable {
            variable: canonical(variable, aliases),
            address: renamed(address, aliases, natives),
        },
        InstModel::StoreVariable { address, variable } => InstModel::StoreVariable {
            address: renamed(address, aliases, natives),
            variable: canonical(variable, aliases),
        },
        InstModel::If { condition, then_branch, else_branch } => InstModel::If {
            condition: renamed(condition, aliases, natives),
            then_branch: renamed_inst_list(then_branch, aliases, natives),
            else_branch: renamed_inst_list(else_branch, aliases, natives),
        },
        InstModel::Loop { label, entry_offset, body } => InstModel::Loop {
            label,
            entry_offset,
            body: renamed_inst_body(body, aliases, natives),
        },
        InstModel::CallSynthetic { function, arguments } => InstModel::CallSynthetic {
            function,
            arguments: renamed_all(arguments, aliases, natives),
        },
        InstModel::Jump(target) => InstModel::Jump(renamed(target, aliases, natives)),
        _ => instr,
    }
}

pub open spec fn renamed_inst_list(
    list: Seq<InstModel>,
    aliases: Seq<(VariableId, VariableId)>,
    natives: Map<usize, VariableId>,
) -> Seq<InstModel>
    decreases list,
{
    Seq::new(
        list.len(),
        |i: int|
            if 0 <= i < list.len() {
                renamed_inst(list[i], aliases, natives)
            } else {
                arbitrary()
            },
    )
}

pub open spec fn renamed_inst_body(
    list: Seq<(usize, InstModel)>,
    aliases: Seq<(VariableId, VariableId)>,
    natives: Map<usize, VariableId>,
) -> Seq<(usize, InstModel)>
    decreases list,
{
    Seq::new(
        list.len(),
        |i: int|
            if 0 <= i < list.len() {
                (list[i].0, renamed_inst(list[i].1, aliases, natives))
            } else {
                arbitrary()
            },
    )
}

fn rewrite_instruction(
    instr: &IRInst,
    aliases: &Vec<(VariableId, VariableId)>,
    natives: &Table<usize, VariableId>,
) -> (res: IRInst)
    ensures
        res.model() == renamed_inst(instr.model(), aliases@, natives@),
    decreases instr,
{
    match instr {
        IRInst::Assign { dest, src } => IRInst::Assign {
            dest: rewrite_expression(dest, aliases, natives),
            src: rewrite_expression(src, aliases, natives),
        },
        IRInst::Return(value) => IRInst::Return(match value {
                Some(value) => Some(rewrite_expression(value, aliases, natives)),
                None => None,
            }),
        IRInst::DeclareVariable { variable, ty } => IRInst::DeclareVariable {
            variable: canonical_variable(*variable, aliases),
            ty: *ty,
        },
        IRInst::AssignVariable { variable, value } => IRInst::AssignVariable {
            variable: canonical_variable(*variable, aliases),
            value: rewrite_expression(value, aliases, natives),
        },
        IRInst::LoadVariable { variable, address } => IRInst::LoadVariable {
            variable: canonical_variable(*variable, aliases),
            address: rewrite_expression(address, aliases, natives),
        },
        IRInst::StoreVariable { address, variable } => IRInst::StoreVariable {
            address: rewrite_expression(address, aliases, natives),
            variable: canonical_variable(*variable, aliases),
        },
        IRInst::If { condition, then_branch, else_branch } => IRInst::If {
            condition: rewrite_expression(condition, aliases, natives),
            then_branch: rewrite_instruction_list(then_branch, aliases, natives),
            else_branch: rewrite_instruction_list(else_branch, aliases, natives),
        },
        IRInst::Loop { label, entry_offset, body } => IRInst::Loop {
            label: *label,
            entry_offset: *entry_offset,
            body: rewrite_instruction_body(body, aliases, natives),
        },
        IRInst::CallSynthetic { function, arguments } => IRInst::CallSynthetic {
            function: *function,
            arguments: rewrite_expression_all(arguments, aliases, natives),
        },
        IRInst::Jump(target) => IRInst::Jump(rewrite_expression(target, aliases, natives)),
        _ => instr.clone(),
    }
}

fn rewrite_instruction_list(
    list: &Vec<IRInst>,
    aliases: &Vec<(VariableId, VariableId)>,
    natives: &Table<usize, VariableId>,
) -> (res: Vec<IRInst>)
    ensures
        models(res@) == renamed_inst_list(models(list@), aliases@, natives@),
    decreases list,
{
    let ghost all = models(list@);
    let mut res: Vec<IRInst> = Vec::new();
    let mut i: usize = 0;
    while i < list.len()
        invariant
            i <= list@.len(),
            all == models(list@),
            res@.len() == i,
            forall|k: int| 0 <= k < i ==> (#[trigger] res@[k]).model() == renamed_inst(
                all[k],
                aliases@,
                natives@,
            ),
        decreases list@.len() - i,
    {
        assert(decreases_to!(list => list@[i as int]));
        res.push(rewrite_instruction(&list[i], aliases, natives));
        i = i + 1;
    }
    assert(models(res@) =~= renamed_inst_list(all, aliases@, natives@));
    res
}

fn rewrite_instruction_body(
    list: &Vec<(usize, IRInst)>,
    aliases: &Vec<(VariableId, VariableId)>,
    natives: &Table<usize, VariableId>,
) -> (res: Vec<(usize, IRInst)>)
    ensures
        body_models(res@) == renamed_inst_body(body_models(list@), aliases@, natives@),
    decreases list,
{
    let ghost all = body_models(list@);
    let mut res: Vec<(usize, IRInst)> = Vec::new();
    let mut i: usize = 0;
    while i < list.len()
        invariant
            i <= list@.len(),
            all == body_models(list@),
            res@.len() == i,
            forall|k: int| 0 <= k < i ==> (#[trigger] res@[k]).0 == all[k].0 && res@[k].1.model() == renamed_inst(
                all[k].1,
                aliases@,
                natives@,
            ),
        decreases list@.len() - i,
    {
        assert(decreases_to!(list => list@[i as int]));
        res.push((list[i].0, rewrite_instruction(&list[i].1, aliases, natives)));
        i = i + 1;
    }
    assert(body_models(res@) =~= renamed_inst_body(all, aliases@, natives@));
    res
}

// ---------------------------------------------------------------------------
// Fresh variables

/// The larger of a number and one found so far.
pub open spec fn including(maximum: Option<usize>, id: usize) -> Option<usize> {
    match maximum {
        Some(found) => Some(
            if found >= id {
                found
            } else {
                id
            },
        ),
        None => Some(id),
    }
}

fn note(maximum: &mut Option<usize>, id: usize)
    ensures
        *final(maximum) == including(*old(maximum), id),
{
    *maximum = match *maximum {
        Some(found) => Some(
            if found >= id {
                found
            } else {
                id
            },
        ),
        None => Some(id),
    };
}

/// The largest number of a variable in an expression.
pub open spec fn largest(expr: IRExpr, maximum: Option<usize>) -> Option<usize>
    decreases expr,
{
    match expr {
        IRExpr::BinOp { lhs, rhs, .. } => largest(*rhs, largest(*lhs, maximum)),
        IRExpr::Deref(address) => largest(*address, maximum),
        IRExpr::CastUnknownPtr { address, .. } => largest(*address, maximum),
        IRExpr::Convert { value, .. } => largest(*value, maximum),
        IRExpr::Variable(variable) => including(maximum, variable.id),
        IRExpr::Not(inner) => largest(*inner, maximum),
        _ => maximum,
    }
}

fn expression_max(expr: &IRExpr, maximum: &mut Option<usize>)
    ensures
        *final(maximum) == largest(*expr, *old(maximum)),
    decreases expr,
{
    match expr {
        IRExpr::BinOp { lhs, rhs, .. } => {
            expression_max(lhs, maximum);
            expression_max(rhs, maximum);
        },
        IRExpr::Deref(address) => {
            expression_max(address, maximum);
        },
        IRExpr::CastUnknownPtr { address, .. } => {
            expression_max(address, maximum);
        },
        IRExpr::Convert { value, .. } => {
            expression_max(value, maximum);
        },
        IRExpr::Variable(variable) => {
            note(maximum, variable.id);
        },
        IRExpr::Not(inner) => {
            expression_max(inner, maximum);
        },
        _ => {},
    }
}

pub open spec fn largest_all(list: Seq<IRExpr>, maximum: Option<usize>) -> Option<usize>
    decreases list.len(),
{
    if list.len() == 0 {
        maximum
    } else {
        largest(list.last(), largest_all(list.drop_last(), maximum))
    }
}

fn expression_max_all(list: &Vec<IRExpr>, maximum: &mut Option<usize>)
    ensures
        *final(maximum) == largest_all(list@, *old(maximum)),
{
    let ghost start = *maximum;
    assert(list@.subrange(0, 0) =~= Seq::empty());
    let mut i: usize = 0;
    while i < list.len()
        invariant
            i <= list@.len(),
            *maximum == largest_all(list@.subrange(0, i as int), start),
        decreases list@.len() - i,
    {
        let ghost prefix = list@.subrange(0, i + 1);
        assert(prefix.drop_last() =~= list@.subrange(0, i as int));
        expression_max(&list[i], maximum);
        i = i + 1;
    }
    assert(list@.subrange(0, i as int) =~= list@);
}

/// The largest number of a variable in an instruction.
pub open spec fn largest_in(instr: InstModel, maximum: Option<usize>) -> Option<usize>
    decreases instr,
{
    match instr {
        InstModel::Assign { dest, src } => largest(src, largest(dest, maximum)),
        InstModel::Return(value) => match value {
            Some(value) => largest(value, maximum),
            None => maximum,
        },
        InstModel::DeclareVariable { variable, .. } => including(maximum, variable.id),
        InstModel::AssignVariable { variable, value } => largest(
            value,
            including(maximum, variable.id),
        ),
        InstModel::LoadVariable { variable, address } => largest(
            address,
            including(maximum, variable.id),
        ),
        InstModel::StoreVariable { address, variable } => largest(
            address,
            including(maximum, variable.id),
        ),
        InstModel::If { condition, then_branch, else_branch } => largest_in_list(
            else_branch,
            largest_in_list(then_branch, largest(condition, maximum)),
        ),
        InstModel::Loop { body, .. } => largest_in_body(body, maximum),
        InstModel::CallSynthetic { arguments, .. } => largest_all(arguments, maximum),
        InstModel::Jump(target) => largest(target, maximum),
        _ => maximum,
    }
}

pub open spec fn largest_in_list(list: Seq<InstModel>, maximum: Option<usize>) -> Option<usize>
    decreases list,
{
    if list.len() == 0 {
        maximum
    } else {
        largest_in(list[list.len() - 1], largest_in_list(list.drop_last(), maximum))
    }
}

pub open spec fn largest_in_body(
    list: Seq<(usize, InstModel)>,
    maximum: Option<usize>,
) -> Option<usize>
    decreases list,
{
    if list.len() == 0 {
        maximum
    } else {
        largest_in(list[list.len() - 1].1, largest_in_body(list.drop_last(), maximum))
    }
}

fn instruction_max(instr: &IRInst, maximum: &mut Option<usize>)
    ensures
        *final(maximum) == largest_in(instr.model(), *old(maximum)),
    decreases instr,
{
    match instr {
        IRInst::Assign { dest, src } => {
            expression_max(dest, maximum);
            expression_max(src, maximum);
        },
        IRInst::Return(value) => {
            if let Some(value) = value {
                expression_max(value, maximum);
            }
        },
        IRInst::DeclareVariable { variable, .. } => {
            note(maximum, variable.id);
        },
        IRInst::AssignVariable { variable, value } => {
            note(maximum, variable.id);
            expression_max(value, maximum);
        },
        IRInst::LoadVariable { variable, address } => {
            note(maximum, variable.id);
            expression_max(address, maximum);
        },
        IRInst::StoreVariable { address, variable } => {
            note(maximum, variable.id);
            expression_max(address, maximum);
        },
        IRInst::If { condition, then_branch, else_branch } => {
            expression_max(condition, maximum);
            instruction_max_list(then_branch, maximum);
            instruction_max_list(else_branch, maximum);
        },
        IRInst::Loop { body, .. } => {
            instruction_max_body(body, maximum);
        },
        IRInst::CallSynthetic { arguments, .. } => {
            expression_max_all(arguments, maximum);
        },
        IRInst::Jump(target) => {
            expression_max(target, maximum);
        },
        _ => {},
    }
}

fn instruction_max_list(list: &Vec<IRInst>, maximum: &mut Option<usize>)
    ensures
        *final(maximum) == largest_in_list(models(list@), *old(maximum)),
    decreases list,
{
    let ghost all = models(list@);
    let ghost start = *maximum;
    assert(all.subrange(0, 0) =~= Seq::empty());
    let mut i: usize = 0;
    while i < list.len()
        invariant
            i <= list@.len(),
            all == models(list@),
            *maximum == largest_in_list(all.subrange(0, i as int), start),
        decreases list@.len() - i,
    {
        let ghost prefix = all.subrange(0, i + 1);
        assert(prefix.drop_last() =~= all.subrange(0, i as int));
        assert(decreases_to!(list => list@[i as int]));
        instruction_max(&list[i], maximum);
        i = i + 1;
    }
    assert(all.subrange(0, i as int) =~= all);
}

fn instruction_max_body(list: &Vec<(usize, IRInst)>, maximum: &mut Option<usize>)
    ensures
        *final(maximum) == largest_in_body(body_models(list@), *old(maximum)),
    decreases list,
{
    let ghost all = body_models(list@);
    let ghost start = *maximum;
    assert(all.subrange(0, 0) =~= Seq::empty());
    let mut i: usize = 0;
    while i < list.len()
        invariant
            i <= list@.len(),
            all == body_models(list@),
            *maximum == largest_in_body(all.subrange(0, i as int), start),
        decreases list@.len() - i,
    {
        let ghost prefix = all.subrange(0, i + 1);
        assert(prefix.drop_last() =~= all.subrange(0, i as int));
        assert(decreases_to!(list => list@[i as int]));
        instruction_max(&list[i].1, maximum);
        i = i + 1;
    }
    assert(all.subrange(0, i as int) =~= all);
}

pub open spec fn largest_parameter(parameters: Seq<Parameter>) -> Option<usize>
    decreases parameters.len(),
{
    if parameters.len() == 0 {
        None
    } else {
        let before = largest_parameter(parameters.drop_last());
        match parameters.last() {
            Parameter::Slot { variable, .. } | Parameter::Value { variable, .. } => including(
                before,
                variable.id,
            ),
            Parameter::Native { .. } | Parameter::Input { .. } => before,
        }
    }
}

/// The largest number of a variable in a function.
pub open spec fn largest_variable(function: FunctionModel) -> Option<usize> {
    largest_in_body(function.body, largest_parameter(function.parameters))
}

fn max_variable_id(function: &SyntheticFunction) -> (res: Option<usize>)
    ensures
        res == largest_variable(function.model()),
{
    let list = &function.parameters;
    let mut maximum: Option<usize> = None;
    assert(list@.subrange(0, 0) =~= Seq::empty());
    let mut i: usize = 0;
    while i < list.len()
        invariant
            i <= list@.len(),
            maximum == largest_parameter(list@.subrange(0, i as int)),
        decreases list@.len() - i,
    {
        let ghost prefix = list@.subrange(0, i + 1);
        assert(prefix.drop_last() =~= list@.subrange(0, i as int));
        if let Some(variable) = list[i].variable() {
            note(&mut maximum, variable.id);
        }
        i = i + 1;
    }
    assert(list@.subrange(0, i as int) =~= list@);
    instruction_max_body(&function.body, &mut maximum);
    maximum
}

fn fresh_variable(function_id: SyntheticFunctionId, numbers: &mut Numbers) -> (res: VariableId)
    ensures
        res == (VariableId { owner: function_id, id: old(numbers).next }),
        *final(numbers) == old(numbers).after(),
{
    let variable: VariableId = VariableId { owner: function_id, id: numbers.next };
    numbers.advance();
    variable
}

// ---------------------------------------------------------------------------
// Self-calls

/// The instructions in place of others, the variables that these need, and the
/// numbers that are left.
pub struct Staged {
    pub out: Seq<InstModel>,
    pub declarations: Seq<(VariableId, VariableType)>,
    pub numbers: Numbers,
}

/// What a self-call assigns: first every new value to a temporary, and then the
/// temporaries to the parameters.
pub struct Transfer {
    pub staged: Seq<InstModel>,
    pub updates: Seq<InstModel>,
    pub declarations: Seq<(VariableId, VariableType)>,
    pub numbers: Numbers,
}

pub open spec fn transferred(
    arguments: Seq<IRExpr>,
    id: SyntheticFunctionId,
    parameters: Seq<LoopParameter>,
    numbers: Numbers,
    count: int,
) -> Transfer
    decreases count,
{
    if count <= 0 {
        Transfer {
            staged: Seq::empty(),
            updates: Seq::empty(),
            declarations: Seq::empty(),
            numbers,
        }
    } else {
        let before = transferred(arguments, id, parameters, numbers, count - 1);
        let argument = arguments[count - 1];
        let parameter = parameters[count - 1];
        if argument == IRExpr::Variable(parameter.variable) {
            before
        } else {
            let temporary = VariableId { owner: id, id: before.numbers.next };
            Transfer {
                staged: before.staged.push(
                    InstModel::AssignVariable { variable: temporary, value: argument },
                ),
                updates: before.updates.push(
                    InstModel::AssignVariable {
                        variable: parameter.variable,
                        value: IRExpr::Variable(temporary),
                    },
                ),
                declarations: before.declarations.push(
                    (temporary, VariableType::Unknown(type_width(parameter.ty))),
                ),
                numbers: before.numbers.after(),
            }
        }
    }
}

/// An instruction with its self-calls replaced by the next round of the loop.
pub open spec fn looped(
    instr: InstModel,
    id: SyntheticFunctionId,
    parameters: Seq<LoopParameter>,
    numbers: Numbers,
) -> Staged
    decreases instr,
{
    match instr {
        InstModel::CallSynthetic { function, arguments } => if function == id {
            let transfer = transferred(
                arguments,
                id,
                parameters,
                numbers,
                shorter(arguments.len(), parameters.len()),
            );
            Staged {
                out: (transfer.staged + transfer.updates).push(InstModel::Continue),
                declarations: transfer.declarations,
                numbers: transfer.numbers,
            }
        } else {
            unchanged(instr, numbers)
        },
        InstModel::If { condition, then_branch, else_branch } => {
            let first = looped_list(then_branch, id, parameters, numbers);
            let second = looped_list(else_branch, id, parameters, first.numbers);
            Staged {
                out: seq![
                    InstModel::If {
                        condition,
                        then_branch: first.out,
                        else_branch: second.out,
                    },
                ],
                declarations: first.declarations + second.declarations,
                numbers: second.numbers,
            }
        },
        InstModel::Loop { label, entry_offset, body } => {
            let inner = looped_body(body, id, parameters, numbers);
            Staged {
                out: seq![InstModel::Loop { label, entry_offset, body: inner.0 }],
                declarations: inner.1,
                numbers: inner.2,
            }
        },
        _ => unchanged(instr, numbers),
    }
}

pub open spec fn unchanged(instr: InstModel, numbers: Numbers) -> Staged {
    Staged { out: seq![instr], declarations: Seq::empty(), numbers }
}

pub open spec fn looped_list(
    list: Seq<InstModel>,
    id: SyntheticFunctionId,
    parameters: Seq<LoopParameter>,
    numbers: Numbers,
) -> Staged
    decreases list,
{
    if list.len() == 0 {
        Staged { out: Seq::empty(), declarations: Seq::empty(), numbers }
    } else {
        let before = looped_list(list.drop_last(), id, parameters, numbers);
        let last = looped(list[list.len() - 1], id, parameters, before.numbers);
        Staged {
            out: before.out + last.out,
            declarations: before.declarations + last.declarations,
            numbers: last.numbers,
        }
    }
}

/// Instructions at an offset.
pub open spec fn placed(list: Seq<InstModel>, offset: usize) -> Seq<(usize, InstModel)> {
    list.map_values(|instr: InstModel| (offset, instr))
}

pub open spec fn looped_body(
    list: Seq<(usize, InstModel)>,
    id: SyntheticFunctionId,
    parameters: Seq<LoopParameter>,
    numbers: Numbers,
) -> (Seq<(usize, InstModel)>, Seq<(VariableId, VariableType)>, Numbers)
    decreases list,
{
    if list.len() == 0 {
        (Seq::empty(), Seq::empty(), numbers)
    } else {
        let before = looped_body(list.drop_last(), id, parameters, numbers);
        let item = list[list.len() - 1];
        let last = looped(item.1, id, parameters, before.2);
        (
            before.0 + placed(last.out, item.0),
            before.1 + last.declarations,
            last.numbers,
        )
    }
}

fn transfer(
    arguments: &Vec<IRExpr>,
    function_id: SyntheticFunctionId,
    parameters: &Vec<LoopParameter>,
    numbers: &mut Numbers,
    declarations: &mut Vec<(VariableId, VariableType)>,
    out: &mut Vec<IRInst>,
)
    ensures
        ({
            let transfer = transferred(
                arguments@,
                function_id,
                parameters@,
                *old(numbers),
                shorter(arguments@.len(), parameters@.len()),
            );
            &&& *final(numbers) == transfer.numbers
            &&& final(declarations)@ == old(declarations)@ + transfer.declarations
            &&& models(final(out)@) == models(old(out)@) + (transfer.staged
                + transfer.updates).push(InstModel::Continue)
        }),
{
    let ghost start = *numbers;
    let ghost declared = declarations@;
    let ghost before = models(out@);
    let mut updates: Vec<IRInst> = Vec::new();
    let mut i: usize = 0;
    assert(models(out@) =~= before + Seq::<InstModel>::empty());
    assert(declarations@ =~= declared + Seq::<(VariableId, VariableType)>::empty());
    assert(models(updates@) =~= Seq::<InstModel>::empty());
    while i < arguments.len() && i < parameters.len()
        invariant
            i <= arguments@.len(),
            i <= parameters@.len(),
            ({
                let made = transferred(arguments@, function_id, parameters@, start, i as int);
                &&& *numbers == made.numbers
                &&& declarations@ == declared + made.declarations
                &&& models(out@) == before + made.staged
                &&& models(updates@) == made.updates
            }),
        decreases arguments@.len() - i,
    {
        let ghost made = transferred(arguments@, function_id, parameters@, start, i as int);
        let parameter: LoopParameter = parameters[i];
        let same: bool = match &arguments[i] {
            IRExpr::Variable(variable) => *variable == parameter.variable,
            _ => false,
        };
        if !same {
            let temporary: VariableId = fresh_variable(function_id, numbers);
            declarations.push((temporary, VariableType::Unknown(width_of_type(parameter.ty))));
            let ghost out_before = out@;
            let ghost updates_before = updates@;
            out.push(
                IRInst::AssignVariable { variable: temporary, value: arguments[i].clone() },
            );
            updates.push(
                IRInst::AssignVariable {
                    variable: parameter.variable,
                    value: IRExpr::Variable(temporary),
                },
            );
            proof {
                let next = transferred(arguments@, function_id, parameters@, start, i + 1);
                assert(models(out@) =~= models(out_before).push(out@.last().model()));
                assert(models(updates@) =~= models(updates_before).push(updates@.last().model()));
                assert(models(out@) =~= before + next.staged);
                assert(models(updates@) =~= next.updates);
                assert(declarations@ =~= declared + next.declarations);
            }
        }
        i = i + 1;
    }
    let ghost staged = models(out@);
    let ghost all = models(updates@);
    let ghost out_before = out@;
    out.append(&mut updates);
    assert(models(out@) =~= staged + all);
    let ghost joined = models(out@);
    out.push(IRInst::Continue);
    assert(models(out@) =~= joined.push(InstModel::Continue));
    proof {
        let made = transferred(
            arguments@,
            function_id,
            parameters@,
            start,
            shorter(arguments@.len(), parameters@.len()),
        );
        assert(joined.push(InstModel::Continue) =~= before + (made.staged + made.updates).push(
            InstModel::Continue,
        ));
    }
}

fn rewrite_self_calls(
    instr: &IRInst,
    function_id: SyntheticFunctionId,
    parameters: &Vec<LoopParameter>,
    numbers: &mut Numbers,
    declarations: &mut Vec<(VariableId, VariableType)>,
    out: &mut Vec<IRInst>,
)
    ensures
        ({
            let made = looped(instr.model(), function_id, parameters@, *old(numbers));
            &&& *final(numbers) == made.numbers
            &&& final(declarations)@ == old(declarations)@ + made.declarations
            &&& models(final(out)@) == models(old(out)@) + made.out
        }),
    decreases instr,
{
    let ghost start = *numbers;
    let ghost declared = declarations@;
    let ghost before = out@;
    match instr {
        IRInst::CallSynthetic { function, arguments } => {
            if *function == function_id {
                transfer(arguments, function_id, parameters, numbers, declarations, out);
                return;
            }
            out.push(instr.clone());
            assert(declarations@ =~= declared + Seq::<(VariableId, VariableType)>::empty());
            assert(models(out@) =~= models(before) + seq![instr.model()]);
        },
        IRInst::If { condition, then_branch, else_branch } => {
            let mut first: Vec<IRInst> = Vec::new();
            rewrite_self_calls_list(
                then_branch,
                function_id,
                parameters,
                numbers,
                declarations,
                &mut first,
            );
            let mut second: Vec<IRInst> = Vec::new();
            rewrite_self_calls_list(
                else_branch,
                function_id,
                parameters,
                numbers,
                declarations,
                &mut second,
            );
            out.push(
                IRInst::If {
                    condition: condition.clone(),
                    then_branch: first,
                    else_branch: second,
                },
            );
            proof {
                let made = looped(instr.model(), function_id, parameters@, start);
                assert(declarations@ =~= declared + made.declarations);
                assert(models(out@) =~= models(before) + made.out);
            }
        },
        IRInst::Loop { label, entry_offset, body } => {
            let mut inner: Vec<(usize, IRInst)> = Vec::new();
            rewrite_self_calls_body(
                body,
                function_id,
                parameters,
                numbers,
                declarations,
                &mut inner,
            );
            out.push(IRInst::Loop { label: *label, entry_offset: *entry_offset, body: inner });
            proof {
                let made = looped(instr.model(), function_id, parameters@, start);
                assert(models(out@) =~= models(before) + made.out);
            }
        },
        _ => {
            out.push(instr.clone());
            assert(declarations@ =~= declared + Seq::<(VariableId, VariableType)>::empty());
            assert(models(out@) =~= models(before) + seq![instr.model()]);
        },
    }
}

fn rewrite_self_calls_list(
    list: &Vec<IRInst>,
    function_id: SyntheticFunctionId,
    parameters: &Vec<LoopParameter>,
    numbers: &mut Numbers,
    declarations: &mut Vec<(VariableId, VariableType)>,
    out: &mut Vec<IRInst>,
)
    requires
        old(out)@.len() == 0,
    ensures
        ({
            let made = looped_list(models(list@), function_id, parameters@, *old(numbers));
            &&& *final(numbers) == made.numbers
            &&& final(declarations)@ == old(declarations)@ + made.declarations
            &&& models(final(out)@) == made.out
        }),
    decreases list,
{
    let ghost all = models(list@);
    let ghost start = *numbers;
    let ghost declared = declarations@;
    assert(all.subrange(0, 0) =~= Seq::empty());
    assert(declarations@ =~= declared + Seq::<(VariableId, VariableType)>::empty());
    assert(models(out@) =~= Seq::<InstModel>::empty());
    let mut i: usize = 0;
    while i < list.len()
        invariant
            i <= list@.len(),
            all == models(list@),
            ({
                let made = looped_list(
                    all.subrange(0, i as int),
                    function_id,
                    parameters@,
                    start,
                );
                &&& *numbers == made.numbers
                &&& declarations@ == declared + made.declarations
                &&& models(out@) == made.out
            }),
        decreases list@.len() - i,
    {
        let ghost prefix = all.subrange(0, i + 1);
        assert(prefix.drop_last() =~= all.subrange(0, i as int));
        assert(decreases_to!(list => list@[i as int]));
        rewrite_self_calls(&list[i], function_id, parameters, numbers, declarations, out);
        i = i + 1;
        proof {
            let made = looped_list(prefix, function_id, parameters@, start);
            assert(declarations@ =~= declared + made.declarations);
        }
    }
    assert(all.subrange(0, i as int) =~= all);
}

fn rewrite_self_calls_body(
    list: &Vec<(usize, IRInst)>,
    function_id: SyntheticFunctionId,
    parameters: &Vec<LoopParameter>,
    numbers: &mut Numbers,
    declarations: &mut Vec<(VariableId, VariableType)>,
    out: &mut Vec<(usize, IRInst)>,
)
    requires
        old(out)@.len() == 0,
    ensures
        ({
            let made = looped_body(body_models(list@), function_id, parameters@, *old(numbers));
            &&& *final(numbers) == made.2
            &&& final(declarations)@ == old(declarations)@ + made.1
            &&& body_models(final(out)@) == made.0
        }),
    decreases list,
{
    let ghost all = body_models(list@);
    let ghost start = *numbers;
    let ghost declared = declarations@;
    assert(all.subrange(0, 0) =~= Seq::empty());
    assert(declarations@ =~= declared + Seq::<(VariableId, VariableType)>::empty());
    assert(body_models(out@) =~= Seq::<(usize, InstModel)>::empty());
    let mut i: usize = 0;
    while i < list.len()
        invariant
            i <= list@.len(),
            all == body_models(list@),
            ({
                let made = looped_body(
                    all.subrange(0, i as int),
                    function_id,
                    parameters@,
                    start,
                );
                &&& *numbers == made.2
                &&& declarations@ == declared + made.1
                &&& body_models(out@) == made.0
            }),
        decreases list@.len() - i,
    {
        let ghost prefix = all.subrange(0, i + 1);
        assert(prefix.drop_last() =~= all.subrange(0, i as int));
        assert(decreases_to!(list => list@[i as int]));
        let mut made: Vec<IRInst> = Vec::new();
        assert(models(made@) =~= Seq::<InstModel>::empty());
        let offset: usize = list[i].0;
        rewrite_self_calls(&list[i].1, function_id, parameters, numbers, declarations, &mut made);
        place_at(made, offset, out);
        i = i + 1;
        proof {
            let after = looped_body(prefix, function_id, parameters@, start);
            assert(declarations@ =~= declared + after.1);
            assert(body_models(out@) =~= after.0);
        }
    }
    assert(all.subrange(0, i as int) =~= all);
}

/// Appends instructions at an offset.
pub fn place_at(list: Vec<IRInst>, offset: usize, out: &mut Vec<(usize, IRInst)>)
    ensures
        body_models(final(out)@) == body_models(old(out)@) + placed(models(list@), offset),
{
    let ghost before = out@;
    let ghost all = models(list@);
    let mut list = list;
    let mut rest: Vec<IRInst> = Vec::new();
    // Taken from the end, so that the last taken comes first.
    while list.len() > 0
        invariant
            models(list@) + models(rest@).reverse() == all,
        decreases list@.len(),
    {
        let ghost list_before = models(list@);
        let ghost rest_before = models(rest@);
        if let Some(instr) = list.pop() {
            rest.push(instr);
            proof {
                assert(models(list@) =~= list_before.drop_last());
                assert(models(rest@) =~= rest_before.push(list_before.last()));
                assert(models(list@) + models(rest@).reverse() =~= all);
            }
        }
    }
    assert(models(rest@).reverse() =~= all);
    let ghost total = rest@.len();
    while rest.len() > 0
        invariant
            rest@.len() <= total,
            all.len() == total,
            models(rest@).reverse() == all.subrange(total - rest@.len(), total as int),
            body_models(out@) == body_models(before) + placed(
                all.subrange(0, total - rest@.len()),
                offset,
            ),
        decreases rest@.len(),
    {
        let ghost rest_before = models(rest@);
        let ghost out_before = body_models(out@);
        let ghost done = total - rest@.len();
        if let Some(instr) = rest.pop() {
            out.push((offset, instr));
            proof {
                assert(models(rest@) =~= rest_before.drop_last());
                assert(rest_before.reverse()[0] == rest_before.last());
                assert(all.subrange(done, total as int)[0] == all[done]);
                assert(body_models(out@) =~= out_before.push((offset, all[done])));
                assert(placed(all.subrange(0, done + 1), offset) =~= placed(
                    all.subrange(0, done),
                    offset,
                ).push((offset, all[done])));
                assert(body_models(out@) =~= body_models(before) + placed(
                    all.subrange(0, done + 1),
                    offset,
                ));
                let back = models(rest@).reverse();
                assert forall|k: int| 0 <= k < back.len() implies #[trigger] back[k]
                    == all.subrange(done + 1, total as int)[k] by {
                    assert(rest_before.reverse()[k + 1] == all.subrange(
                        done,
                        total as int,
                    )[k + 1]);
                }
                assert(back =~= all.subrange(done + 1, total as int));
            }
        }
    }
    assert(all.subrange(0, total as int) =~= all);
}

// ---------------------------------------------------------------------------
// Exits

/// The number of calls that leave the loop, counted up to two.
pub open spec fn exits(instr: InstModel, count: usize) -> usize
    decreases instr,
{
    match instr {
        InstModel::If { then_branch, else_branch, .. } => exits_list(
            else_branch,
            exits_list(then_branch, count),
        ),
        InstModel::Loop { .. } => count,
        InstModel::CallSynthetic { .. } => if count >= 2 {
            count
        } else {
            (count + 1) as usize
        },
        _ => count,
    }
}

pub open spec fn exits_list(list: Seq<InstModel>, count: usize) -> usize
    decreases list,
{
    if list.len() == 0 {
        count
    } else {
        exits(list[list.len() - 1], exits_list(list.drop_last(), count))
    }
}

pub open spec fn exits_body(list: Seq<(usize, InstModel)>, count: usize) -> usize
    decreases list,
{
    if list.len() == 0 {
        count
    } else {
        exits(list[list.len() - 1].1, exits_body(list.drop_last(), count))
    }
}

fn exit_call_count(instr: &IRInst, count: &mut usize)
    ensures
        *final(count) == exits(instr.model(), *old(count)),
    decreases instr,
{
    match instr {
        IRInst::If { then_branch, else_branch, .. } => {
            exit_call_count_list(then_branch, count);
            exit_call_count_list(else_branch, count);
        },
        IRInst::Loop { .. } => {
            
        },
        IRInst::CallSynthetic { .. } => {
            if *count < 2 {
                *count = *count + 1;
            }
        },
        _ => {},
    }
}

fn exit_call_count_list(list: &Vec<IRInst>, count: &mut usize)
    ensures
        *final(count) == exits_list(models(list@), *old(count)),
    decreases list,
{
    let ghost all = models(list@);
    let ghost start = *count;
    assert(all.subrange(0, 0) =~= Seq::empty());
    let mut i: usize = 0;
    while i < list.len()
        invariant
            i <= list@.len(),
            all == models(list@),
            *count == exits_list(all.subrange(0, i as int), start),
        decreases list@.len() - i,
    {
        let ghost prefix = all.subrange(0, i + 1);
        assert(prefix.drop_last() =~= all.subrange(0, i as int));
        assert(decreases_to!(list => list@[i as int]));
        exit_call_count(&list[i], count);
        i = i + 1;
    }
    assert(all.subrange(0, i as int) =~= all);
}

fn exit_call_count_body(list: &Vec<(usize, IRInst)>, count: &mut usize)
    ensures
        *final(count) == exits_body(body_models(list@), *old(count)),
    decreases list,
{
    let ghost all = body_models(list@);
    let ghost start = *count;
    assert(all.subrange(0, 0) =~= Seq::empty());
    let mut i: usize = 0;
    while i < list.len()
        invariant
            i <= list@.len(),
            all == body_models(list@),
            *count == exits_body(all.subrange(0, i as int), start),
        decreases list@.len() - i,
    {
        let ghost prefix = all.subrange(0, i + 1);
        assert(prefix.drop_last() =~= all.subrange(0, i as int));
        assert(decreases_to!(list => list@[i as int]));
        exit_call_count(&list[i].1, count);
        i = i + 1;
    }
    assert(all.subrange(0, i as int) =~= all);
}

/// An instruction with its first call replaced by a break, and the call.
pub open spec fn exit_replaced(instr: InstModel) -> Option<(InstModel, InstModel)>
    decreases instr,
{
    match instr {
        InstModel::CallSynthetic { .. } => Some((InstModel::Break, instr)),
        InstModel::If { condition, then_branch, else_branch } => match exit_replaced_list(
            then_branch,
        ) {
            Some((then_branch, call)) => Some(
                (InstModel::If { condition, then_branch, else_branch }, call),
            ),
            None => match exit_replaced_list(else_branch) {
                Some((else_branch, call)) => Some(
                    (InstModel::If { condition, then_branch, else_branch }, call),
                ),
                None => None,
            },
        },
        _ => None,
    }
}

pub open spec fn exit_replaced_list(list: Seq<InstModel>) -> Option<(Seq<InstModel>, InstModel)>
    decreases list,
{
    if list.len() == 0 {
        None
    } else {
        let front = list.drop_last();
        let last = list[list.len() - 1];
        match exit_replaced_list(front) {
            Some((front, call)) => Some((front.push(last), call)),
            None => match exit_replaced(last) {
                Some((last, call)) => Some((front.push(last), call)),
                None => None,
            },
        }
    }
}

/// A body with its first call replaced by a break, and the call with its offset.
pub open spec fn exit_replaced_body(list: Seq<(usize, InstModel)>) -> Option<
    (Seq<(usize, InstModel)>, (usize, InstModel)),
>
    decreases list.len(),
{
    if list.len() == 0 {
        None
    } else {
        let front = list.drop_last();
        let last = list.last();
        match exit_replaced_body(front) {
            Some((front, call)) => Some((front.push(last), call)),
            None => match exit_replaced(last.1) {
                Some((instr, call)) => Some((front.push((last.0, instr)), (last.0, call))),
                None => None,
            },
        }
    }
}

fn replace_exit_call(instr: &IRInst) -> (res: Option<(IRInst, IRInst)>)
    ensures
        match res {
            Some((instr2, call)) => exit_replaced(instr.model()) == Some(
                (instr2.model(), call.model()),
            ),
            None => exit_replaced(instr.model()) is None,
        },
    decreases instr,
{
    match instr {
        IRInst::CallSynthetic { .. } => Some((IRInst::Break, instr.clone())),
        IRInst::If { condition, then_branch, else_branch } => match replace_exit_call_list(
            then_branch,
        ) {
            (first, Some(call)) => Some(
                (
                    IRInst::If {
                        condition: condition.clone(),
                        then_branch: first,
                        else_branch: super::ir::clone_instructions(else_branch),
                    },
                    call,
                ),
            ),
            (first, None) => match replace_exit_call_list(else_branch) {
                (second, Some(call)) => Some(
                    (
                        IRInst::If {
                            condition: condition.clone(),
                            then_branch: first,
                            else_branch: second,
                        },
                        call,
                    ),
                ),
                (_, None) => None,
            },
        },
        _ => None,
    }
}

fn replace_exit_call_list(list: &Vec<IRInst>) -> (res: (Vec<IRInst>, Option<IRInst>))
    ensures
        match res.1 {
            Some(call) => exit_replaced_list(models(list@)) == Some((models(res.0@), call.model())),
            None => exit_replaced_list(models(list@)) is None && models(res.0@) == models(list@),
        },
    decreases list,
{
    let ghost all = models(list@);
    let mut out: Vec<IRInst> = Vec::new();
    let mut found: Option<IRInst> = None;
    assert(all.subrange(0, 0) =~= Seq::empty());
    assert(models(out@) =~= all.subrange(0, 0));
    let mut i: usize = 0;
    while i < list.len()
        invariant
            i <= list@.len(),
            all == models(list@),
            match found {
                Some(call) => exit_replaced_list(all.subrange(0, i as int)) == Some(
                    (models(out@), call.model()),
                ),
                None => exit_replaced_list(all.subrange(0, i as int)) is None && models(out@)
                    == all.subrange(0, i as int),
            },
        decreases list@.len() - i,
    {
        let ghost prefix = all.subrange(0, i + 1);
        let ghost before = models(out@);
        assert(prefix.drop_last() =~= all.subrange(0, i as int));
        assert(decreases_to!(list => list@[i as int]));
        if found.is_some() {
            out.push(list[i].clone());
            assert(models(out@) =~= before.push(all[i as int]));
        } else {
            match replace_exit_call(&list[i]) {
                Some((instr, call)) => {
                    let ghost instr_model = instr.model();
                    out.push(instr);
                    found = Some(call);
                    assert(models(out@) =~= before.push(instr_model));
                },
                None => {
                    out.push(list[i].clone());
                    assert(models(out@) =~= prefix);
                },
            }
        }
        i = i + 1;
    }
    assert(all.subrange(0, i as int) =~= all);
    (out, found)
}

/// The loop body with its single exit call hoisted out, where there is just one.
pub open spec fn exit_hoisted(body: Seq<(usize, InstModel)>) -> (
    Seq<(usize, InstModel)>,
    Option<(usize, InstModel)>,
) {
    if exits_body(body, 0) != 1 {
        (body, None)
    } else {
        match exit_replaced_body(body) {
            Some((body, call)) => (body, Some(call)),
            None => (body, None),
        }
    }
}

fn hoist_single_exit_call(body: Vec<(usize, IRInst)>) -> (res: (
    Vec<(usize, IRInst)>,
    Option<(usize, IRInst)>,
))
    ensures
        exit_hoisted(body_models(body@)).0 == body_models(res.0@),
        match res.1 {
            Some((offset, call)) => exit_hoisted(body_models(body@)).1 == Some(
                (offset, call.model()),
            ),
            None => exit_hoisted(body_models(body@)).1 is None,
        },
{
    let ghost all = body_models(body@);
    let mut count: usize = 0;
    exit_call_count_body(&body, &mut count);
    if count != 1 {
        return (body, None);
    }
    let mut out: Vec<(usize, IRInst)> = Vec::new();
    let mut found: Option<(usize, IRInst)> = None;
    assert(all.subrange(0, 0) =~= Seq::empty());
    assert(body_models(out@) =~= all.subrange(0, 0));
    let mut i: usize = 0;
    while i < body.len()
        invariant
            i <= body@.len(),
            all == body_models(body@),
            match found {
                Some((offset, call)) => exit_replaced_body(all.subrange(0, i as int)) == Some(
                    (body_models(out@), (offset, call.model())),
                ),
                None => exit_replaced_body(all.subrange(0, i as int)) is None && body_models(out@)
                    == all.subrange(0, i as int),
            },
        decreases body@.len() - i,
    {
        let ghost prefix = all.subrange(0, i + 1);
        let ghost before = body_models(out@);
        assert(prefix.drop_last() =~= all.subrange(0, i as int));
        let offset: usize = body[i].0;
        if found.is_some() {
            out.push((offset, body[i].1.clone()));
            assert(body_models(out@) =~= before.push(all[i as int]));
        } else {
            match replace_exit_call(&body[i].1) {
                Some((instr, call)) => {
                    let ghost instr_model = instr.model();
                    out.push((offset, instr));
                    found = Some((offset, call));
                    assert(body_models(out@) =~= before.push((offset, instr_model)));
                },
                None => {
                    out.push((offset, body[i].1.clone()));
                    assert(body_models(out@) =~= prefix);
                },
            }
        }
        i = i + 1;
    }
    assert(all.subrange(0, i as int) =~= all);
    (out, found)
}

// ---------------------------------------------------------------------------
// Lowering

/// Whether an instruction calls the function.
pub open spec fn calls_itself(instr: InstModel, id: SyntheticFunctionId) -> bool
    decreases instr,
{
    match instr {
        InstModel::If {
            then_branch,
            else_branch,
            ..
        } => calls_itself_list(then_branch, id) || calls_itself_list(else_branch, id),
        InstModel::Loop { body, .. } => calls_itself_body(body, id),
        InstModel::CallSynthetic { function, .. } => function == id,
        _ => false,
    }
}

pub open spec fn calls_itself_list(list: Seq<InstModel>, id: SyntheticFunctionId) -> bool
    decreases list,
{
    if list.len() == 0 {
        false
    } else {
        calls_itself_list(list.drop_last(), id) || calls_itself(list[list.len() - 1], id)
    }
}

pub open spec fn calls_itself_body(list: Seq<(usize, InstModel)>, id: SyntheticFunctionId) -> bool
    decreases list,
{
    if list.len() == 0 {
        false
    } else {
        calls_itself_body(list.drop_last(), id) || calls_itself(list[list.len() - 1].1, id)
    }
}

fn has_self_call(instr: &IRInst, id: SyntheticFunctionId) -> (res: bool)
    ensures
        res == calls_itself(instr.model(), id),
    decreases instr,
{
    match instr {
        IRInst::If {
            then_branch,
            else_branch,
            ..
        } => has_self_call_list(then_branch, id) || has_self_call_list(else_branch, id),
        IRInst::Loop { body, .. } => has_self_call_body(body, id),
        IRInst::CallSynthetic { function, .. } => *function == id,
        _ => false,
    }
}

fn has_self_call_list(list: &Vec<IRInst>, id: SyntheticFunctionId) -> (res: bool)
    ensures
        res == calls_itself_list(models(list@), id),
    decreases list,
{
    let ghost all = models(list@);
    assert(all.subrange(0, 0) =~= Seq::empty());
    let mut res: bool = false;
    let mut i: usize = 0;
    while i < list.len()
        invariant
            i <= list@.len(),
            all == models(list@),
            res == calls_itself_list(all.subrange(0, i as int), id),
        decreases list@.len() - i,
    {
        let ghost prefix = all.subrange(0, i + 1);
        assert(prefix.drop_last() =~= all.subrange(0, i as int));
        assert(decreases_to!(list => list@[i as int]));
        res = res || has_self_call(&list[i], id);
        i = i + 1;
    }
    assert(all.subrange(0, i as int) =~= all);
    res
}

fn has_self_call_body(list: &Vec<(usize, IRInst)>, id: SyntheticFunctionId) -> (res: bool)
    ensures
        res == calls_itself_body(body_models(list@), id),
    decreases list,
{
    let ghost all = body_models(list@);
    assert(all.subrange(0, 0) =~= Seq::empty());
    let mut res: bool = false;
    let mut i: usize = 0;
    while i < list.len()
        invariant
            i <= list@.len(),
            all == body_models(list@),
            res == calls_itself_body(all.subrange(0, i as int), id),
        decreases list@.len() - i,
    {
        let ghost prefix = all.subrange(0, i + 1);
        assert(prefix.drop_last() =~= all.subrange(0, i as int));
        assert(decreases_to!(list => list@[i as int]));
        res = res || has_self_call(&list[i].1, id);
        i = i + 1;
    }
    assert(all.subrange(0, i as int) =~= all);
    res
}

/// Whether every call of the function in an instruction has as many arguments as
/// the function has parameters.
pub open spec fn arity_matches(instr: InstModel, id: SyntheticFunctionId, count: usize) -> bool
    decreases instr,
{
    match instr {
        InstModel::If {
            then_branch,
            else_branch,
            ..
        } => arity_matches_list(
            then_branch,
            id,
            count,
        ) && arity_matches_list(else_branch, id, count),
        InstModel::Loop { body, .. } => arity_matches_body(body, id, count),
        InstModel::CallSynthetic {
            function,
            arguments,
        } => function != id || arguments.len() == count,
        _ => true,
    }
}

pub open spec fn arity_matches_list(
    list: Seq<InstModel>,
    id: SyntheticFunctionId,
    count: usize,
) -> bool
    decreases list,
{
    if list.len() == 0 {
        true
    } else {
        arity_matches_list(list.drop_last(), id, count) && arity_matches(
            list[list.len() - 1],
            id,
            count,
        )
    }
}

pub open spec fn arity_matches_body(
    list: Seq<(usize, InstModel)>,
    id: SyntheticFunctionId,
    count: usize,
) -> bool
    decreases list,
{
    if list.len() == 0 {
        true
    } else {
        arity_matches_body(list.drop_last(), id, count) && arity_matches(
            list[list.len() - 1].1,
            id,
            count,
        )
    }
}

fn has_arity(instr: &IRInst, id: SyntheticFunctionId, count: usize) -> (res: bool)
    ensures
        res == arity_matches(instr.model(), id, count),
    decreases instr,
{
    match instr {
        IRInst::If {
            then_branch,
            else_branch,
            ..
        } => has_arity_list(then_branch, id, count) && has_arity_list(else_branch, id, count),
        IRInst::Loop { body, .. } => has_arity_body(body, id, count),
        IRInst::CallSynthetic {
            function,
            arguments,
        } => *function != id || arguments.len() == count,
        _ => true,
    }
}

fn has_arity_list(list: &Vec<IRInst>, id: SyntheticFunctionId, count: usize) -> (res: bool)
    ensures
        res == arity_matches_list(models(list@), id, count),
    decreases list,
{
    let ghost all = models(list@);
    assert(all.subrange(0, 0) =~= Seq::empty());
    let mut res: bool = true;
    let mut i: usize = 0;
    while i < list.len()
        invariant
            i <= list@.len(),
            all == models(list@),
            res == arity_matches_list(all.subrange(0, i as int), id, count),
        decreases list@.len() - i,
    {
        let ghost prefix = all.subrange(0, i + 1);
        assert(prefix.drop_last() =~= all.subrange(0, i as int));
        assert(decreases_to!(list => list@[i as int]));
        res = res && has_arity(&list[i], id, count);
        i = i + 1;
    }
    assert(all.subrange(0, i as int) =~= all);
    res
}

fn has_arity_body(list: &Vec<(usize, IRInst)>, id: SyntheticFunctionId, count: usize) -> (res: bool)
    ensures
        res == arity_matches_body(body_models(list@), id, count),
    decreases list,
{
    let ghost all = body_models(list@);
    assert(all.subrange(0, 0) =~= Seq::empty());
    let mut res: bool = true;
    let mut i: usize = 0;
    while i < list.len()
        invariant
            i <= list@.len(),
            all == body_models(list@),
            res == arity_matches_body(all.subrange(0, i as int), id, count),
        decreases list@.len() - i,
    {
        let ghost prefix = all.subrange(0, i + 1);
        assert(prefix.drop_last() =~= all.subrange(0, i as int));
        assert(decreases_to!(list => list@[i as int]));
        res = res && has_arity(&list[i].1, id, count);
        i = i + 1;
    }
    assert(all.subrange(0, i as int) =~= all);
    res
}

/// What the parameters of a function become in a loop.
pub struct Carried {
    pub parameters: Seq<LoopParameter>,
    pub natives: Map<usize, VariableId>,
    /// The variables that carry arguments, with their ordinals and types.
    pub initial: Seq<(VariableId, usize, VariableType)>,
    pub numbers: Numbers,
}

pub open spec fn carried(
    parameters: Seq<Parameter>,
    id: SyntheticFunctionId,
    numbers: Numbers,
) -> Carried
    decreases parameters.len(),
{
    if parameters.len() == 0 {
        Carried {
            parameters: Seq::empty(),
            natives: Map::empty(),
            initial: Seq::empty(),
            numbers,
        }
    } else {
        let before = carried(parameters.drop_last(), id, numbers);
        let ty = parameters.last().ty();
        match parameters.last() {
            Parameter::Native { ordinal, .. } | Parameter::Input { ordinal, .. } => {
                let variable = VariableId { owner: id, id: before.numbers.next };
                Carried {
                    parameters: before.parameters.push(LoopParameter { variable, ty }),
                    natives: before.natives.insert(ordinal, variable),
                    initial: before.initial.push((variable, ordinal, ty)),
                    numbers: before.numbers.after(),
                }
            },
            Parameter::Slot { variable, .. } | Parameter::Value { variable, .. } => Carried {
                parameters: before.parameters.push(LoopParameter { variable, ty }),
                ..before
            },
        }
    }
}

fn carry(
    list: &Vec<Parameter>,
    id: SyntheticFunctionId,
    numbers: &mut Numbers,
    natives: &mut Table<usize, VariableId>,
    initial: &mut Vec<(VariableId, usize, VariableType)>,
) -> (res: Vec<LoopParameter>)
    requires
        old(natives)@ == Map::<usize, VariableId>::empty(),
        old(initial)@ == Seq::<(VariableId, usize, VariableType)>::empty(),
    ensures
        (Carried {
            parameters: res@,
            natives: final(natives)@,
            initial: final(initial)@,
            numbers: *final(numbers),
        }) == carried(list@, id, *old(numbers)),
{
    let ghost start = *numbers;
    let mut res: Vec<LoopParameter> = Vec::new();
    assert(list@.subrange(0, 0) =~= Seq::empty());
    let mut i: usize = 0;
    while i < list.len()
        invariant
            i <= list@.len(),
            (Carried {
                parameters: res@,
                natives: natives@,
                initial: initial@,
                numbers: *numbers,
            }) == carried(list@.subrange(0, i as int), id, start),
        decreases list@.len() - i,
    {
        let ghost prefix = list@.subrange(0, i + 1);
        assert(prefix.drop_last() =~= list@.subrange(0, i as int));
        let ty: VariableType = list[i].slot_type();
        match list[i] {
            Parameter::Native { ordinal, .. } | Parameter::Input { ordinal, .. } => {
                let variable: VariableId = fresh_variable(id, numbers);
                res.push(LoopParameter { variable, ty });
                natives.insert(ordinal, variable);
                initial.push((variable, ordinal, ty));
            },
            Parameter::Slot { variable, .. } | Parameter::Value { variable, .. } => {
                res.push(LoopParameter { variable, ty });
            },
        }
        i = i + 1;
    }
    assert(list@.subrange(0, i as int) =~= list@);
    res
}

/// The register slots among the parameters.
pub open spec fn parameter_slots(parameters: Seq<Parameter>) -> Map<VariableId, Register>
    decreases parameters.len(),
{
    if parameters.len() == 0 {
        Map::empty()
    } else {
        let before = parameter_slots(parameters.drop_last());
        match parameters.last() {
            Parameter::Slot { variable, register } => before.insert(variable, register),
            _ => before,
        }
    }
}

/// Every register slot of a function.
pub open spec fn register_slots(function: FunctionModel) -> Map<VariableId, Register> {
    slots_with_body(function.body, parameter_slots(function.parameters))
}

pub fn collect_slots(function: &SyntheticFunction) -> (res: Table<VariableId, Register>)
    ensures
        res@ == register_slots(function.model()),
{
    let list = &function.parameters;
    let mut slots: Table<VariableId, Register> = Table::new();
    assert(list@.subrange(0, 0) =~= Seq::empty());
    let mut i: usize = 0;
    while i < list.len()
        invariant
            i <= list@.len(),
            slots@ == parameter_slots(list@.subrange(0, i as int)),
        decreases list@.len() - i,
    {
        let ghost prefix = list@.subrange(0, i + 1);
        assert(prefix.drop_last() =~= list@.subrange(0, i as int));
        if let Parameter::Slot { variable, register } = &list[i] {
            slots.insert(*variable, *register);
        }
        i = i + 1;
    }
    assert(list@.subrange(0, i as int) =~= list@);
    collect_register_slots_body(&function.body, &mut slots);
    slots
}

pub open spec fn renamed_parameters(
    parameters: Seq<Parameter>,
    aliases: Seq<(VariableId, VariableId)>,
) -> Seq<Parameter> {
    parameters.map_values(
        |p: Parameter|
            match p {
                Parameter::Slot { variable, register } => Parameter::Slot {
                    variable: canonical(variable, aliases),
                    register,
                },
                Parameter::Value { variable, size } => Parameter::Value {
                    variable: canonical(variable, aliases),
                    size,
                },
                Parameter::Native { .. } | Parameter::Input { .. } => p,
            },
    )
}

fn rename_parameters(list: &Vec<Parameter>, aliases: &Vec<(VariableId, VariableId)>) -> (res: Vec<
    Parameter,
>)
    ensures
        res@ == renamed_parameters(list@, aliases@),
{
    let mut res: Vec<Parameter> = Vec::new();
    let mut i: usize = 0;
    while i < list.len()
        invariant
            i <= list@.len(),
            res@ == renamed_parameters(list@.subrange(0, i as int), aliases@),
        decreases list@.len() - i,
    {
        res.push(
            match list[i] {
                Parameter::Slot { variable, register } => Parameter::Slot {
                    variable: canonical_variable(variable, aliases),
                    register,
                },
                Parameter::Value { variable, size } => Parameter::Value {
                    variable: canonical_variable(variable, aliases),
                    size,
                },
                Parameter::Native { .. } | Parameter::Input { .. } => list[i],
            },
        );
        i = i + 1;
        assert(res@ =~= renamed_parameters(list@.subrange(0, i as int), aliases@));
    }
    assert(list@.subrange(0, i as int) =~= list@);
    res
}

pub open spec fn renamed_carried(
    parameters: Seq<LoopParameter>,
    aliases: Seq<(VariableId, VariableId)>,
) -> Seq<LoopParameter> {
    parameters.map_values(
        |p: LoopParameter|
            LoopParameter { variable: canonical(p.variable, aliases), ty: p.ty },
    )
}

fn rename_carried(list: &Vec<LoopParameter>, aliases: &Vec<(VariableId, VariableId)>) -> (res: Vec<
    LoopParameter,
>)
    ensures
        res@ == renamed_carried(list@, aliases@),
{
    let mut res: Vec<LoopParameter> = Vec::new();
    let mut i: usize = 0;
    while i < list.len()
        invariant
            i <= list@.len(),
            res@ == renamed_carried(list@.subrange(0, i as int), aliases@),
        decreases list@.len() - i,
    {
        res.push(
            LoopParameter {
                variable: canonical_variable(list[i].variable, aliases),
                ty: list[i].ty,
            },
        );
        i = i + 1;
        assert(res@ =~= renamed_carried(list@.subrange(0, i as int), aliases@));
    }
    assert(list@.subrange(0, i as int) =~= list@);
    res
}

pub open spec fn renamed_initial(
    initial: Seq<(VariableId, usize, VariableType)>,
    aliases: Seq<(VariableId, VariableId)>,
) -> Seq<(VariableId, usize, VariableType)> {
    initial.map_values(
        |p: (VariableId, usize, VariableType)| (canonical(p.0, aliases), p.1, p.2),
    )
}

fn rename_initial(
    list: &Vec<(VariableId, usize, VariableType)>,
    aliases: &Vec<(VariableId, VariableId)>,
) -> (res: Vec<(VariableId, usize, VariableType)>)
    ensures
        res@ == renamed_initial(list@, aliases@),
{
    let mut res: Vec<(VariableId, usize, VariableType)> = Vec::new();
    let mut i: usize = 0;
    while i < list.len()
        invariant
            i <= list@.len(),
            res@ == renamed_initial(list@.subrange(0, i as int), aliases@),
        decreases list@.len() - i,
    {
        res.push((canonical_variable(list[i].0, aliases), list[i].1, list[i].2));
        i = i + 1;
        assert(res@ =~= renamed_initial(list@.subrange(0, i as int), aliases@));
    }
    assert(list@.subrange(0, i as int) =~= list@);
    res
}

/// The declarations in front of a loop, the variables that they declare, and the
/// instructions in it.
pub struct Split {
    pub declarations: Seq<(usize, InstModel)>,
    pub declared: Set<VariableId>,
    pub body: Seq<(usize, InstModel)>,
}

/// A body parted into declarations and the rest. The variables that the loop
/// carries are declared elsewhere.
pub open spec fn split(body: Seq<(usize, InstModel)>, carried: Set<VariableId>) -> Split
    decreases body.len(),
{
    if body.len() == 0 {
        Split { declarations: Seq::empty(), declared: Set::empty(), body: Seq::empty() }
    } else {
        let before = split(body.drop_last(), carried);
        match body.last().1 {
            InstModel::DeclareVariable { variable, .. } => if carried.contains(variable)
                || before.declared.contains(variable) {
                before
            } else {
                Split {
                    declarations: before.declarations.push(body.last()),
                    declared: before.declared.insert(variable),
                    body: before.body,
                }
            },
            _ => Split { body: before.body.push(body.last()), ..before },
        }
    }
}

fn split_body(
    body: &Vec<(usize, IRInst)>,
    carried: &KeySet<VariableId>,
    declarations: &mut Vec<(usize, IRInst)>,
    declared: &mut KeySet<VariableId>,
) -> (res: Vec<(usize, IRInst)>)
    requires
        old(declarations)@.len() == 0,
        old(declared)@ == Set::<VariableId>::empty(),
    ensures
        (Split {
            declarations: body_models(final(declarations)@),
            declared: final(declared)@,
            body: body_models(res@),
        }) == split(body_models(body@), carried@),
{
    let ghost all = body_models(body@);
    let mut rest: Vec<(usize, IRInst)> = Vec::new();
    assert(all.subrange(0, 0) =~= Seq::empty());
    assert(body_models(declarations@) =~= Seq::<(usize, InstModel)>::empty());
    assert(body_models(rest@) =~= Seq::<(usize, InstModel)>::empty());
    let mut i: usize = 0;
    while i < body.len()
        invariant
            i <= body@.len(),
            all == body_models(body@),
            (Split {
                declarations: body_models(declarations@),
                declared: declared@,
                body: body_models(rest@),
            }) == split(all.subrange(0, i as int), carried@),
        decreases body@.len() - i,
    {
        let ghost prefix = all.subrange(0, i + 1);
        assert(prefix.drop_last() =~= all.subrange(0, i as int));
        let ghost front = body_models(declarations@);
        let ghost back = body_models(rest@);
        match &body[i].1 {
            IRInst::DeclareVariable { variable, ty } => {
                if !carried.contains(*variable) && declared.insert(*variable) {
                    declarations.push(
                        (body[i].0, IRInst::DeclareVariable { variable: *variable, ty: *ty }),
                    );
                    assert(body_models(declarations@) =~= front.push(all[i as int]));
                } else {
                    assert(declared@ =~= split(all.subrange(0, i as int), carried@).declared);
                }
            },
            other => {
                rest.push((body[i].0, other.clone()));
                assert(body_models(rest@) =~= back.push(all[i as int]));
            },
        }
        i = i + 1;
    }
    assert(all.subrange(0, i as int) =~= all);
    rest
}

/// Declarations with more, each variable once.
pub open spec fn declaring(
    declarations: Seq<(usize, InstModel)>,
    declared: Set<VariableId>,
    list: Seq<(VariableId, VariableType)>,
    offset: usize,
) -> (Seq<(usize, InstModel)>, Set<VariableId>)
    decreases list.len(),
{
    if list.len() == 0 {
        (declarations, declared)
    } else {
        let before = declaring(declarations, declared, list.drop_last(), offset);
        let (variable, ty) = list.last();
        if before.1.contains(variable) {
            before
        } else {
            (
                before.0.push((offset, InstModel::DeclareVariable { variable, ty })),
                before.1.insert(variable),
            )
        }
    }
}

fn declare_more(
    declarations: &mut Vec<(usize, IRInst)>,
    declared: &mut KeySet<VariableId>,
    list: &Vec<(VariableId, VariableType)>,
    offset: usize,
)
    ensures
        (body_models(final(declarations)@), final(declared)@) == declaring(
            body_models(old(declarations)@),
            old(declared)@,
            list@,
            offset,
        ),
{
    let ghost start = (body_models(declarations@), declared@);
    assert(list@.subrange(0, 0) =~= Seq::empty());
    let mut i: usize = 0;
    while i < list.len()
        invariant
            i <= list@.len(),
            (body_models(declarations@), declared@) == declaring(
                start.0,
                start.1,
                list@.subrange(0, i as int),
                offset,
            ),
        decreases list@.len() - i,
    {
        let ghost prefix = list@.subrange(0, i + 1);
        assert(prefix.drop_last() =~= list@.subrange(0, i as int));
        let ghost before = (body_models(declarations@), declared@);
        let (variable, ty) = list[i];
        if declared.insert(variable) {
            declarations.push((offset, IRInst::DeclareVariable { variable, ty }));
            assert(body_models(declarations@) =~= before.0.push(
                (offset, InstModel::DeclareVariable { variable, ty }),
            ));
        } else {
            assert(declared@ =~= before.1);
        }
        i = i + 1;
    }
    assert(list@.subrange(0, i as int) =~= list@);
}

/// The types of the variables that carry arguments.
pub open spec fn native_types(initial: Seq<(VariableId, usize, VariableType)>) -> Seq<
    (VariableId, VariableType),
> {
    initial.map_values(|p: (VariableId, usize, VariableType)| (p.0, p.2))
}

/// The assignments of the arguments.
pub open spec fn native_values(
    initial: Seq<(VariableId, usize, VariableType)>,
    offset: usize,
) -> Seq<(usize, InstModel)> {
    initial.map_values(
        |p: (VariableId, usize, VariableType)|
            (
                offset,
                InstModel::AssignVariable { variable: p.0, value: IRExpr::Argument(p.1) },
            ),
    )
}

pub open spec fn canonical_types(
    list: Seq<(VariableId, VariableType)>,
    aliases: Seq<(VariableId, VariableId)>,
) -> Seq<(VariableId, VariableType)> {
    list.map_values(|p: (VariableId, VariableType)| (canonical(p.0, aliases), p.1))
}

pub open spec fn carried_variables(
    parameters: Seq<LoopParameter>,
    initial: Seq<(VariableId, usize, VariableType)>,
) -> Set<VariableId> {
    Set::new(
        |v: VariableId|
            (exists|i: int| 0 <= i < parameters.len() && (#[trigger] parameters[i]).variable == v)
                || (exists|i: int| 0 <= i < initial.len() && (#[trigger] initial[i]).0 == v),
    )
}

fn collect_carried(
    parameters: &Vec<LoopParameter>,
    initial: &Vec<(VariableId, usize, VariableType)>,
) -> (res: KeySet<VariableId>)
    ensures
        res@ == carried_variables(parameters@, initial@),
{
    let mut res: KeySet<VariableId> = KeySet::new();
    let mut i: usize = 0;
    while i < parameters.len()
        invariant
            i <= parameters@.len(),
            forall|v: VariableId| #[trigger]
                res@.contains(v) <==> exists|k: int|
                    0 <= k < i && (#[trigger] parameters@[k]).variable == v,
        decreases parameters@.len() - i,
    {
        let ghost before = res@;
        res.insert(parameters[i].variable);
        proof {
            assert forall|v: VariableId| #[trigger] res@.contains(v) <==> exists|k: int|
                0 <= k < i + 1 && (#[trigger] parameters@[k]).variable == v by {
                if before.contains(v) {
                    let k = choose|k: int| 0 <= k < i && (#[trigger] parameters@[k]).variable == v;
                    assert(parameters@[k].variable == v);
                }
                assert(parameters@[i as int].variable == parameters@[i as int].variable);
                if exists|k: int| 0 <= k < i + 1 && (#[trigger] parameters@[k]).variable == v {
                    let k = choose|k: int|
                        0 <= k < i + 1 && (#[trigger] parameters@[k]).variable == v;
                    if k < i {
                        assert(before.contains(v));
                    }
                }
            }
        }
        i = i + 1;
    }
    let mut j: usize = 0;
    while j < initial.len()
        invariant
            j <= initial@.len(),
            forall|v: VariableId| #[trigger]
                res@.contains(v) <==> (exists|k: int|
                    0 <= k < parameters@.len() && (#[trigger] parameters@[k]).variable == v) || (
                exists|k: int| 0 <= k < j && (#[trigger] initial@[k]).0 == v),
        decreases initial@.len() - j,
    {
        let ghost before = res@;
        res.insert(initial[j].0);
        proof {
            assert forall|v: VariableId| #[trigger] res@.contains(v) <==> (exists|k: int|
                0 <= k < parameters@.len() && (#[trigger] parameters@[k]).variable == v) || (
            exists|k: int| 0 <= k < j + 1 && (#[trigger] initial@[k]).0 == v) by {
                assert(before.contains(v) <==> (exists|k: int|
                    0 <= k < parameters@.len() && (#[trigger] parameters@[k]).variable == v) || (
                exists|k: int| 0 <= k < j && (#[trigger] initial@[k]).0 == v));
                if exists|k: int| 0 <= k < j && (#[trigger] initial@[k]).0 == v {
                    let k = choose|k: int| 0 <= k < j && (#[trigger] initial@[k]).0 == v;
                    assert(initial@[k].0 == v && k < j + 1);
                }
                if exists|k: int| 0 <= k < j + 1 && (#[trigger] initial@[k]).0 == v {
                    let k = choose|k: int| 0 <= k < j + 1 && (#[trigger] initial@[k]).0 == v;
                    if k < j {
                        assert(initial@[k].0 == v && k < j);
                    }
                }
                if v == initial@[j as int].0 {
                    assert(initial@[j as int].0 == v);
                }
            }
        }
        j = j + 1;
    }
    assert(res@ =~= carried_variables(parameters@, initial@));
    res
}

/// What a function with self-calls becomes, and the numbers that are left.
pub open spec fn lowered_body(function: FunctionModel, id: SyntheticFunctionId) -> (
    FunctionModel,
    Numbers,
) {
    let entry = carried(function.parameters, id, Numbers::above(largest_variable(function)));
    let aliases = merged_body(
        function.body,
        Seq::empty(),
        id,
        entry.parameters,
        register_slots(function),
    );
    let body = renamed_inst_body(function.body, aliases, entry.natives);
    let parameters = renamed_carried(entry.parameters, aliases);
    let initial = renamed_initial(entry.initial, aliases);
    let rounds = looped_body(body, id, parameters, entry.numbers);
    let parts = split(rounds.0, carried_variables(parameters, initial));
    let offset = function.entry_offset;
    let with_natives = declaring(
        parts.declarations,
        parts.declared,
        native_types(initial),
        offset,
    );
    let with_temporaries = declaring(
        with_natives.0,
        with_natives.1,
        canonical_types(rounds.1, aliases),
        offset,
    );
    let hoisted = exit_hoisted(parts.body);
    let start = with_temporaries.0 + native_values(initial, offset);
    let with_loop = start.push(
        (offset, InstModel::Loop { label: None, entry_offset: offset, body: hoisted.0 }),
    );
    (
        FunctionModel {
            parameters: renamed_parameters(function.parameters, aliases),
            body: match hoisted.1 {
                Some(call) => with_loop.push(call),
                None => with_loop,
            },
            ..function
        },
        rounds.2,
    )
}

/// A function with its self-calls as a loop, unless a self-call has the wrong
/// number of arguments or the numbers for variables run out.
pub open spec fn lowered(
    function: FunctionModel,
    id: SyntheticFunctionId,
) -> Option<FunctionModel> {
    if !calls_itself_body(function.body, id) {
        Some(function)
    } else if !arity_matches_body(function.body, id, function.parameters.len() as usize)
        || lowered_body(function, id).1.spent {
        None
    } else {
        Some(lowered_body(function, id).0)
    }
}

fn put_native_values(
    out: &mut Vec<(usize, IRInst)>,
    initial: &Vec<(VariableId, usize, VariableType)>,
    offset: usize,
)
    ensures
        body_models(final(out)@) == body_models(old(out)@) + native_values(initial@, offset),
{
    let ghost before = body_models(out@);
    let mut i: usize = 0;
    assert(body_models(out@) =~= before + native_values(initial@.subrange(0, 0), offset));
    while i < initial.len()
        invariant
            i <= initial@.len(),
            body_models(out@) == before + native_values(initial@.subrange(0, i as int), offset),
        decreases initial@.len() - i,
    {
        let ghost last = body_models(out@);
        out.push(
            (
                offset,
                IRInst::AssignVariable {
                    variable: initial[i].0,
                    value: IRExpr::Argument(initial[i].1),
                },
            ),
        );
        i = i + 1;
        proof {
            assert(body_models(out@) =~= last.push(out@.last().1.model_at(offset)));
            assert(body_models(out@) =~= before + native_values(
                initial@.subrange(0, i as int),
                offset,
            ));
        }
    }
    assert(initial@.subrange(0, i as int) =~= initial@);
}

impl IRInst {
    spec fn model_at(self, offset: usize) -> (usize, InstModel) {
        (offset, self.model())
    }
}

fn types_of_natives(initial: &Vec<(VariableId, usize, VariableType)>) -> (res: Vec<
    (VariableId, VariableType),
>)
    ensures
        res@ == native_types(initial@),
{
    let mut res: Vec<(VariableId, VariableType)> = Vec::new();
    let mut i: usize = 0;
    while i < initial.len()
        invariant
            i <= initial@.len(),
            res@ == native_types(initial@.subrange(0, i as int)),
        decreases initial@.len() - i,
    {
        res.push((initial[i].0, initial[i].2));
        i = i + 1;
        assert(res@ =~= native_types(initial@.subrange(0, i as int)));
    }
    assert(initial@.subrange(0, i as int) =~= initial@);
    res
}

fn canonicalize_types(
    list: &Vec<(VariableId, VariableType)>,
    aliases: &Vec<(VariableId, VariableId)>,
) -> (res: Vec<(VariableId, VariableType)>)
    ensures
        res@ == canonical_types(list@, aliases@),
{
    let mut res: Vec<(VariableId, VariableType)> = Vec::new();
    let mut i: usize = 0;
    while i < list.len()
        invariant
            i <= list@.len(),
            res@ == canonical_types(list@.subrange(0, i as int), aliases@),
        decreases list@.len() - i,
    {
        res.push((canonical_variable(list[i].0, aliases), list[i].1));
        i = i + 1;
        assert(res@ =~= canonical_types(list@.subrange(0, i as int), aliases@));
    }
    assert(list@.subrange(0, i as int) =~= list@);
    res
}

fn copy_parameters(list: &Vec<Parameter>) -> (res: Vec<Parameter>)
    ensures
        res@ == list@,
{
    let mut res: Vec<Parameter> = Vec::new();
    let mut i: usize = 0;
    while i < list.len()
        invariant
            i <= list@.len(),
            res@ == list@.subrange(0, i as int),
        decreases list@.len() - i,
    {
        res.push(list[i]);
        i = i + 1;
        assert(res@ =~= list@.subrange(0, i as int));
    }
    assert(res@ =~= list@);
    res
}

/// Turns the self-calls of a function into a loop, if their arguments match the
/// parameters and there are numbers for the variables that this needs.
fn lower_function(function: &SyntheticFunction, id: SyntheticFunctionId) -> (res: Option<
    SyntheticFunction,
>)
    ensures
        match res {
            Some(after) => lowered(function.model(), id) == Some(after.model()),
            None => lowered(function.model(), id) is None,
        },
{
    if !has_self_call_body(&function.body, id) {
        let same: SyntheticFunction = SyntheticFunction {
            entry_offset: function.entry_offset,
            parameters: copy_parameters(&function.parameters),
            body: super::ir::clone_body(&function.body),
        };
        assert(same.model() == function.model());
        return Some(same);
    }
    if !has_arity_body(&function.body, id, function.parameters.len()) {
        return None;
    }
    let mut numbers: Numbers = Numbers::start(max_variable_id(function));
    let mut natives: Table<usize, VariableId> = Table::new();
    let mut initial: Vec<(VariableId, usize, VariableType)> = Vec::new();
    let parameters: Vec<LoopParameter> = carry(
        &function.parameters,
        id,
        &mut numbers,
        &mut natives,
        &mut initial,
    );
    let slots: Table<VariableId, Register> = collect_slots(function);
    let mut aliases: Vec<(VariableId, VariableId)> = Vec::new();
    collect_merges_body(&function.body, &mut aliases, id, &parameters, &slots);
    let body: Vec<(usize, IRInst)> = rewrite_instruction_body(&function.body, &aliases, &natives);
    let signature: Vec<Parameter> = rename_parameters(&function.parameters, &aliases);
    let parameters: Vec<LoopParameter> = rename_carried(&parameters, &aliases);
    let initial: Vec<(VariableId, usize, VariableType)> = rename_initial(&initial, &aliases);
    let mut temporaries: Vec<(VariableId, VariableType)> = Vec::new();
    let mut rounds: Vec<(usize, IRInst)> = Vec::new();
    rewrite_self_calls_body(&body, id, &parameters, &mut numbers, &mut temporaries, &mut rounds);
    assert(temporaries@ =~= looped_body(
        body_models(body@),
        id,
        parameters@,
        carried(
            function.parameters@,
            id,
            Numbers::above(largest_variable(function.model())),
        ).numbers,
    ).1);
    if numbers.spent {
        return None;
    }
    let carried: KeySet<VariableId> = collect_carried(&parameters, &initial);
    let mut out: Vec<(usize, IRInst)> = Vec::new();
    let mut declared: KeySet<VariableId> = KeySet::new();
    let loop_body: Vec<(usize, IRInst)> = split_body(&rounds, &carried, &mut out, &mut declared);
    let offset: usize = function.entry_offset;
    declare_more(&mut out, &mut declared, &types_of_natives(&initial), offset);
    declare_more(&mut out, &mut declared, &canonicalize_types(&temporaries, &aliases), offset);
    let (loop_body, exit_call) = hoist_single_exit_call(loop_body);
    put_native_values(&mut out, &initial, offset);
    let ghost before = body_models(out@);
    let ghost inner = body_models(loop_body@);
    out.push((offset, IRInst::Loop { label: None, entry_offset: offset, body: loop_body }));
    assert(body_models(out@) =~= before.push(
        (offset, InstModel::Loop { label: None, entry_offset: offset, body: inner }),
    ));
    let ghost with_loop = body_models(out@);
    if let Some((offset, call)) = exit_call {
        let ghost call_model = call.model();
        out.push((offset, call));
        assert(body_models(out@) =~= with_loop.push((offset, call_model)));
    }
    Some(SyntheticFunction { entry_offset: offset, parameters: signature, body: out })
}

/// Every function with its self-calls as a loop.
pub open spec fn all_lowered(functions: Seq<FunctionModel>) -> Option<Seq<FunctionModel>>
    decreases functions.len(),
{
    if functions.len() == 0 {
        Some(Seq::empty())
    } else {
        match (
            all_lowered(functions.drop_last()),
            lowered(
                functions.last(),
                SyntheticFunctionId { id: (functions.len() - 1) as usize },
            ),
        ) {
            (Some(front), Some(last)) => Some(front.push(last)),
            _ => None,
        }
    }
}

pub open spec fn program_lowered(program: ProgramModel) -> Option<ProgramModel> {
    match all_lowered(program.functions) {
        Some(functions) => Some(ProgramModel { functions, ..program }),
        None => None,
    }
}

proof fn lemma_lowering_stops(functions: Seq<FunctionModel>, count: int)
    requires
        0 <= count <= functions.len(),
        all_lowered(functions.subrange(0, count)) is None,
    ensures
        all_lowered(functions) is None,
    decreases functions.len() - count,
{
    if count < functions.len() {
        let next = functions.subrange(0, count + 1);
        assert(next.drop_last() =~= functions.subrange(0, count));
        lemma_lowering_stops(functions, count + 1);
    } else {
        assert(functions.subrange(0, count) =~= functions);
    }
}

/// Turns self-calls into loops, if every function allows it.
pub fn try_tr(program: Program) -> (res: Option<Program>)
    ensures
        match res {
            Some(after) => program_lowered(program.model()) == Some(after.model()),
            None => program_lowered(program.model()) is None,
        },
{
    let ghost all = function_models(program.functions@);
    let mut functions: Vec<SyntheticFunction> = Vec::new();
    assert(all.subrange(0, 0) =~= Seq::empty());
    assert(function_models(functions@) =~= Seq::<FunctionModel>::empty());
    let mut i: usize = 0;
    while i < program.functions.len()
        invariant
            i <= program.functions@.len(),
            all == function_models(program.functions@),
            all_lowered(all.subrange(0, i as int)) == Some(function_models(functions@)),
        decreases program.functions@.len() - i,
    {
        let ghost prefix = all.subrange(0, i + 1);
        assert(prefix.drop_last() =~= all.subrange(0, i as int));
        assert(prefix.last() == program.functions@[i as int].model());
        let ghost before = function_models(functions@);
        match lower_function(&program.functions[i], SyntheticFunctionId { id: i }) {
            Some(function) => {
                let ghost model = function.model();
                functions.push(function);
                assert(function_models(functions@) =~= before.push(model));
            },
            None => {
                proof {
                    lemma_lowering_stops(all, i + 1);
                }
                return None;
            },
        }
        i = i + 1;
    }
    assert(all.subrange(0, i as int) =~= all);
    Some(
        Program {
            entry_address: program.entry_address,
            entry: program.entry,
            data: program.data,
            functions,
        },
    )
}

/// Turns self-calls into loops. Every self-call has to have as many arguments as
/// its function has parameters, and the numbers for new variables to suffice.
pub fn tr(program: Program) -> (res: Program)
    requires
        program_lowered(program.model()) is Some,
    ensures
        Some(res.model()) == program_lowered(program.model()),
{
    match try_tr(program) {
        Some(program) => program,
        None => vstd::pervasive::unreached(),
    }
}

} // verus!
