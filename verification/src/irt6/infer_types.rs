//! Higher-tier type evidence from recovered operations. A zero-terminated string
//! cannot be inferred from byte accesses alone.
use super::ir::{
    body_models, function_models, models, FunctionModel, IRExpr, IRInst, InstModel, Parameter,
    Program, ProgramModel, SyntheticFunction, SyntheticFunctionId, VariableId, VariableType,
};
use crate::rounds::{grows, is_end, lemma_rank_bound, lemma_round_raises, rank};
use crate::table::{Key, KeySet, Table};
use vstd::prelude::*;

verus! {

/// A variable, or an argument of a function.
#[derive(Clone, Copy, Debug, PartialEq, Eq, Structural)]
pub enum Slot {
    Argument(SyntheticFunctionId, usize),
    Variable(VariableId),
}

impl Key for Slot {
    fn equal(&self, other: &Self) -> (res: bool) {
        *self == *other
    }
}

/// The slot that an expression is.
pub open spec fn slot_in(expr: IRExpr, owner: SyntheticFunctionId) -> Option<Slot> {
    match expr {
        IRExpr::Argument(ordinal) => Some(Slot::Argument(owner, ordinal)),
        IRExpr::Variable(variable) => Some(Slot::Variable(variable)),
        _ => None,
    }
}

fn direct_slot(expr: &IRExpr, owner: SyntheticFunctionId) -> (res: Option<Slot>)
    ensures
        res == slot_in(*expr, owner),
{
    match expr {
        IRExpr::Argument(ordinal) => Some(Slot::Argument(owner, *ordinal)),
        IRExpr::Variable(variable) => Some(Slot::Variable(*variable)),
        _ => None,
    }
}

/// Whether a type is a string, or a vector of bytes that may be one.
pub open spec fn holds_bytes(ty: VariableType) -> bool {
    ty == VariableType::CString || ty == VariableType::Vector(Box::new(VariableType::Integer(8)))
}

fn is_byte_sequence(ty: &VariableType) -> (res: bool)
    ensures
        res == holds_bytes(*ty),
{
    match ty {
        VariableType::CString => true,
        VariableType::Vector(element) => element.same(&VariableType::Integer(8)),
        _ => false,
    }
}

pub open spec fn slot_holds_bytes(types: Map<Slot, VariableType>, slot: Slot) -> bool {
    types.dom().contains(slot) && holds_bytes(types[slot])
}

fn byte_slot(types: &Table<Slot, VariableType>, slot: Slot) -> (res: bool)
    ensures
        res == slot_holds_bytes(types@, slot),
{
    match types.get(slot) {
        Some(ty) => is_byte_sequence(ty),
        None => false,
    }
}

pub open spec fn formal_of(function: SyntheticFunctionId, parameter: Parameter) -> Slot {
    match parameter {
        Parameter::Argument { ordinal, .. } => Slot::Argument(function, ordinal),
        Parameter::Slot { variable, .. } => Slot::Variable(variable),
    }
}

fn formal(function: SyntheticFunctionId, parameter: &Parameter) -> (res: Slot)
    ensures
        res == formal_of(function, *parameter),
{
    match parameter {
        Parameter::Argument { ordinal, .. } => Slot::Argument(function, *ordinal),
        Parameter::Slot { variable, .. } => Slot::Variable(*variable),
    }
}

/// The edges with that of a copied slot.
pub open spec fn with_edge(
    edges: Seq<(Slot, Slot)>,
    dest: Slot,
    source: IRExpr,
    owner: SyntheticFunctionId,
) -> Seq<(Slot, Slot)> {
    match slot_in(source, owner) {
        Some(slot) => edges.push((dest, slot)),
        None => edges,
    }
}

fn add_edge(edges: &mut Vec<(Slot, Slot)>, dest: Slot, source: &IRExpr, owner: SyntheticFunctionId)
    ensures
        final(edges)@ == with_edge(old(edges)@, dest, *source, owner),
{
    if let Some(slot) = direct_slot(source, owner) {
        edges.push((dest, slot));
    }
}

/// The edges with those of the first `count` arguments of a call.
pub open spec fn with_arguments(
    edges: Seq<(Slot, Slot)>,
    function: SyntheticFunctionId,
    arguments: Seq<IRExpr>,
    owner: SyntheticFunctionId,
    functions: Seq<FunctionModel>,
    count: int,
) -> Seq<(Slot, Slot)>
    decreases count,
{
    if count <= 0 {
        edges
    } else {
        let before = with_arguments(edges, function, arguments, owner, functions, count - 1);
        if function.id < functions.len() && count
            <= functions[function.id as int].parameters.len() {
            with_edge(
                before,
                formal_of(function, functions[function.id as int].parameters[count - 1]),
                arguments[count - 1],
                owner,
            )
        } else {
            before
        }
    }
}

fn add_arguments(
    edges: &mut Vec<(Slot, Slot)>,
    function: SyntheticFunctionId,
    arguments: &Vec<IRExpr>,
    owner: SyntheticFunctionId,
    functions: &Vec<SyntheticFunction>,
)
    ensures
        final(edges)@ == with_arguments(
            old(edges)@,
            function,
            arguments@,
            owner,
            function_models(functions@),
            arguments@.len() as int,
        ),
{
    let ghost start = edges@;
    let mut i: usize = 0;
    while i < arguments.len()
        invariant
            i <= arguments@.len(),
            edges@ == with_arguments(
                start,
                function,
                arguments@,
                owner,
                function_models(functions@),
                i as int,
            ),
        decreases arguments@.len() - i,
    {
        if function.id < functions.len() {
            assert(function_models(functions@)[function.id as int]
                == functions@[function.id as int].model());
            let parameters = &functions[function.id].parameters;
            if i < parameters.len() {
                add_edge(edges, formal(function, &parameters[i]), &arguments[i], owner);
            }
        }
        i = i + 1;
    }
}

/// The seeds with the base of a walk over bytes.
pub open spec fn with_walk(
    seeds: Set<Slot>,
    element_type: VariableType,
    vector: IRExpr,
    owner: SyntheticFunctionId,
) -> Set<Slot> {
    match slot_in(vector, owner) {
        Some(slot) => if element_type == VariableType::Integer(8) {
            seeds.insert(slot)
        } else {
            seeds
        },
        None => seeds,
    }
}

fn add_walk(
    seeds: &mut KeySet<Slot>,
    element_type: &VariableType,
    vector: &IRExpr,
    owner: SyntheticFunctionId,
)
    ensures
        final(seeds)@ == with_walk(old(seeds)@, *element_type, *vector, owner),
{
    if let Some(slot) = direct_slot(vector, owner) {
        if element_type.same(&VariableType::Integer(8)) {
            seeds.insert(slot);
        }
    }
}

/// The types with those of the declarations in an instruction.
pub open spec fn declared_with(
    instr: InstModel,
    types: Map<Slot, VariableType>,
) -> Map<Slot, VariableType>
    decreases instr,
{
    match instr {
        InstModel::DeclareVariable { variable, ty } => types.insert(Slot::Variable(variable), ty),
        InstModel::DeclareAndAssignVariable { variable, ty, .. } => types.insert(
            Slot::Variable(variable),
            ty,
        ),
        InstModel::If { then_branch, else_branch, .. } => declared_with_list(
            else_branch,
            declared_with_list(then_branch, types),
        ),
        InstModel::While { body, .. } => declared_with_body(body, types),
        InstModel::ForEach { variable, element_type, body, .. } => declared_with_body(
            body,
            types.insert(Slot::Variable(variable), element_type),
        ),
        _ => types,
    }
}

pub open spec fn declared_with_list(
    list: Seq<InstModel>,
    types: Map<Slot, VariableType>,
) -> Map<Slot, VariableType>
    decreases list,
{
    if list.len() == 0 {
        types
    } else {
        declared_with(list[list.len() - 1], declared_with_list(list.drop_last(), types))
    }
}

pub open spec fn declared_with_body(
    list: Seq<(usize, InstModel)>,
    types: Map<Slot, VariableType>,
) -> Map<Slot, VariableType>
    decreases list,
{
    if list.len() == 0 {
        types
    } else {
        declared_with(list[list.len() - 1].1, declared_with_body(list.drop_last(), types))
    }
}

fn declarations(instr: &IRInst, types: &mut Table<Slot, VariableType>)
    ensures
        final(types)@ == declared_with(instr.model(), old(types)@),
    decreases instr,
{
    match instr {
        IRInst::DeclareVariable { variable, ty } => {
            types.insert(Slot::Variable(*variable), ty.clone());
        },
        IRInst::DeclareAndAssignVariable { variable, ty, .. } => {
            types.insert(Slot::Variable(*variable), ty.clone());
        },
        IRInst::If { then_branch, else_branch, .. } => {
            declarations_list(then_branch, types);
            declarations_list(else_branch, types);
        },
        IRInst::While { body, .. } => {
            declarations_body(body, types);
        },
        IRInst::ForEach { variable, element_type, body, .. } => {
            types.insert(Slot::Variable(*variable), element_type.clone());
            declarations_body(body, types);
        },
        _ => {},
    }
}

fn declarations_list(list: &Vec<IRInst>, types: &mut Table<Slot, VariableType>)
    ensures
        final(types)@ == declared_with_list(models(list@), old(types)@),
    decreases list,
{
    let ghost all = models(list@);
    let ghost start = types@;
    assert(all.subrange(0, 0) =~= Seq::empty());
    let mut i: usize = 0;
    while i < list.len()
        invariant
            i <= list@.len(),
            all == models(list@),
            types@ == declared_with_list(all.subrange(0, i as int), start),
        decreases list@.len() - i,
    {
        let ghost prefix = all.subrange(0, i + 1);
        assert(prefix.drop_last() =~= all.subrange(0, i as int));
        assert(decreases_to!(list => list@[i as int]));
        declarations(&list[i], types);
        i = i + 1;
    }
    assert(all.subrange(0, i as int) =~= all);
}

fn declarations_body(list: &Vec<(usize, IRInst)>, types: &mut Table<Slot, VariableType>)
    ensures
        final(types)@ == declared_with_body(body_models(list@), old(types)@),
    decreases list,
{
    let ghost all = body_models(list@);
    let ghost start = types@;
    assert(all.subrange(0, 0) =~= Seq::empty());
    let mut i: usize = 0;
    while i < list.len()
        invariant
            i <= list@.len(),
            all == body_models(list@),
            types@ == declared_with_body(all.subrange(0, i as int), start),
        decreases list@.len() - i,
    {
        let ghost prefix = all.subrange(0, i + 1);
        assert(prefix.drop_last() =~= all.subrange(0, i as int));
        assert(decreases_to!(list => list@[i as int]));
        declarations(&list[i].1, types);
        i = i + 1;
    }
    assert(all.subrange(0, i as int) =~= all);
}

/// The edges with those of the copies and calls in an instruction.
pub open spec fn linked_with(
    instr: InstModel,
    edges: Seq<(Slot, Slot)>,
    owner: SyntheticFunctionId,
    functions: Seq<FunctionModel>,
) -> Seq<(Slot, Slot)>
    decreases instr,
{
    match instr {
        InstModel::Assign { dest, src } => match dest {
            IRExpr::Variable(variable) => with_edge(edges, Slot::Variable(variable), src, owner),
            _ => edges,
        },
        InstModel::DeclareAndAssignVariable { variable, value, .. } => with_edge(
            edges,
            Slot::Variable(variable),
            value,
            owner,
        ),
        InstModel::AssignVariable { variable, value } => with_edge(
            edges,
            Slot::Variable(variable),
            value,
            owner,
        ),
        InstModel::If { then_branch, else_branch, .. } => linked_with_list(
            else_branch,
            linked_with_list(then_branch, edges, owner, functions),
            owner,
            functions,
        ),
        InstModel::While { body, .. } => linked_with_body(body, edges, owner, functions),
        InstModel::ForEach { body, .. } => linked_with_body(body, edges, owner, functions),
        InstModel::CallSynthetic { function, arguments } => with_arguments(
            edges,
            function,
            arguments,
            owner,
            functions,
            arguments.len() as int,
        ),
        _ => edges,
    }
}

pub open spec fn linked_with_list(
    list: Seq<InstModel>,
    edges: Seq<(Slot, Slot)>,
    owner: SyntheticFunctionId,
    functions: Seq<FunctionModel>,
) -> Seq<(Slot, Slot)>
    decreases list,
{
    if list.len() == 0 {
        edges
    } else {
        linked_with(
            list[list.len() - 1],
            linked_with_list(list.drop_last(), edges, owner, functions),
            owner,
            functions,
        )
    }
}

pub open spec fn linked_with_body(
    list: Seq<(usize, InstModel)>,
    edges: Seq<(Slot, Slot)>,
    owner: SyntheticFunctionId,
    functions: Seq<FunctionModel>,
) -> Seq<(Slot, Slot)>
    decreases list,
{
    if list.len() == 0 {
        edges
    } else {
        linked_with(
            list[list.len() - 1].1,
            linked_with_body(list.drop_last(), edges, owner, functions),
            owner,
            functions,
        )
    }
}

fn links(
    instr: &IRInst,
    edges: &mut Vec<(Slot, Slot)>,
    owner: SyntheticFunctionId,
    functions: &Vec<SyntheticFunction>,
)
    ensures
        final(edges)@ == linked_with(
            instr.model(),
            old(edges)@,
            owner,
            function_models(functions@),
        ),
    decreases instr,
{
    match instr {
        IRInst::Assign { dest, src } => {
            if let IRExpr::Variable(variable) = dest {
                add_edge(edges, Slot::Variable(*variable), src, owner);
            }
        },
        IRInst::DeclareAndAssignVariable { variable, value, .. } => {
            add_edge(edges, Slot::Variable(*variable), value, owner);
        },
        IRInst::AssignVariable { variable, value } => {
            add_edge(edges, Slot::Variable(*variable), value, owner);
        },
        IRInst::If { then_branch, else_branch, .. } => {
            links_list(then_branch, edges, owner, functions);
            links_list(else_branch, edges, owner, functions);
        },
        IRInst::While { body, .. } => {
            links_body(body, edges, owner, functions);
        },
        IRInst::ForEach { body, .. } => {
            links_body(body, edges, owner, functions);
        },
        IRInst::CallSynthetic { function, arguments } => {
            add_arguments(edges, *function, arguments, owner, functions);
        },
        _ => {},
    }
}

fn links_list(
    list: &Vec<IRInst>,
    edges: &mut Vec<(Slot, Slot)>,
    owner: SyntheticFunctionId,
    functions: &Vec<SyntheticFunction>,
)
    ensures
        final(edges)@ == linked_with_list(
            models(list@),
            old(edges)@,
            owner,
            function_models(functions@),
        ),
    decreases list,
{
    let ghost all = models(list@);
    let ghost start = edges@;
    assert(all.subrange(0, 0) =~= Seq::empty());
    let mut i: usize = 0;
    while i < list.len()
        invariant
            i <= list@.len(),
            all == models(list@),
            edges@ == linked_with_list(
                all.subrange(0, i as int),
                start,
                owner,
                function_models(functions@),
            ),
        decreases list@.len() - i,
    {
        let ghost prefix = all.subrange(0, i + 1);
        assert(prefix.drop_last() =~= all.subrange(0, i as int));
        assert(decreases_to!(list => list@[i as int]));
        links(&list[i], edges, owner, functions);
        i = i + 1;
    }
    assert(all.subrange(0, i as int) =~= all);
}

fn links_body(
    list: &Vec<(usize, IRInst)>,
    edges: &mut Vec<(Slot, Slot)>,
    owner: SyntheticFunctionId,
    functions: &Vec<SyntheticFunction>,
)
    ensures
        final(edges)@ == linked_with_body(
            body_models(list@),
            old(edges)@,
            owner,
            function_models(functions@),
        ),
    decreases list,
{
    let ghost all = body_models(list@);
    let ghost start = edges@;
    assert(all.subrange(0, 0) =~= Seq::empty());
    let mut i: usize = 0;
    while i < list.len()
        invariant
            i <= list@.len(),
            all == body_models(list@),
            edges@ == linked_with_body(
                all.subrange(0, i as int),
                start,
                owner,
                function_models(functions@),
            ),
        decreases list@.len() - i,
    {
        let ghost prefix = all.subrange(0, i + 1);
        assert(prefix.drop_last() =~= all.subrange(0, i as int));
        assert(decreases_to!(list => list@[i as int]));
        links(&list[i].1, edges, owner, functions);
        i = i + 1;
    }
    assert(all.subrange(0, i as int) =~= all);
}

/// The sequences that an instruction walks up to a zero byte.
pub open spec fn walked_with(
    instr: InstModel,
    seeds: Set<Slot>,
    owner: SyntheticFunctionId,
) -> Set<Slot>
    decreases instr,
{
    match instr {
        InstModel::If { then_branch, else_branch, .. } => walked_with_list(
            else_branch,
            walked_with_list(then_branch, seeds, owner),
            owner,
        ),
        InstModel::While { body, .. } => walked_with_body(body, seeds, owner),
        InstModel::ForEach { element_type, vector, body, .. } => walked_with_body(
            body,
            with_walk(seeds, element_type, vector, owner),
            owner,
        ),
        _ => seeds,
    }
}

pub open spec fn walked_with_list(
    list: Seq<InstModel>,
    seeds: Set<Slot>,
    owner: SyntheticFunctionId,
) -> Set<Slot>
    decreases list,
{
    if list.len() == 0 {
        seeds
    } else {
        walked_with(list[list.len() - 1], walked_with_list(list.drop_last(), seeds, owner), owner)
    }
}

pub open spec fn walked_with_body(
    list: Seq<(usize, InstModel)>,
    seeds: Set<Slot>,
    owner: SyntheticFunctionId,
) -> Set<Slot>
    decreases list,
{
    if list.len() == 0 {
        seeds
    } else {
        walked_with(list[list.len() - 1].1, walked_with_body(list.drop_last(), seeds, owner), owner)
    }
}

fn walks(instr: &IRInst, seeds: &mut KeySet<Slot>, owner: SyntheticFunctionId)
    ensures
        final(seeds)@ == walked_with(instr.model(), old(seeds)@, owner),
    decreases instr,
{
    match instr {
        IRInst::If { then_branch, else_branch, .. } => {
            walks_list(then_branch, seeds, owner);
            walks_list(else_branch, seeds, owner);
        },
        IRInst::While { body, .. } => {
            walks_body(body, seeds, owner);
        },
        IRInst::ForEach { element_type, vector, body, .. } => {
            add_walk(seeds, element_type, vector, owner);
            walks_body(body, seeds, owner);
        },
        _ => {},
    }
}

fn walks_list(list: &Vec<IRInst>, seeds: &mut KeySet<Slot>, owner: SyntheticFunctionId)
    ensures
        final(seeds)@ == walked_with_list(models(list@), old(seeds)@, owner),
    decreases list,
{
    let ghost all = models(list@);
    let ghost start = seeds@;
    assert(all.subrange(0, 0) =~= Seq::empty());
    let mut i: usize = 0;
    while i < list.len()
        invariant
            i <= list@.len(),
            all == models(list@),
            seeds@ == walked_with_list(all.subrange(0, i as int), start, owner),
        decreases list@.len() - i,
    {
        let ghost prefix = all.subrange(0, i + 1);
        assert(prefix.drop_last() =~= all.subrange(0, i as int));
        assert(decreases_to!(list => list@[i as int]));
        walks(&list[i], seeds, owner);
        i = i + 1;
    }
    assert(all.subrange(0, i as int) =~= all);
}

fn walks_body(list: &Vec<(usize, IRInst)>, seeds: &mut KeySet<Slot>, owner: SyntheticFunctionId)
    ensures
        final(seeds)@ == walked_with_body(body_models(list@), old(seeds)@, owner),
    decreases list,
{
    let ghost all = body_models(list@);
    let ghost start = seeds@;
    assert(all.subrange(0, 0) =~= Seq::empty());
    let mut i: usize = 0;
    while i < list.len()
        invariant
            i <= list@.len(),
            all == body_models(list@),
            seeds@ == walked_with_body(all.subrange(0, i as int), start, owner),
        decreases list@.len() - i,
    {
        let ghost prefix = all.subrange(0, i + 1);
        assert(prefix.drop_last() =~= all.subrange(0, i as int));
        assert(decreases_to!(list => list@[i as int]));
        walks(&list[i].1, seeds, owner);
        i = i + 1;
    }
    assert(all.subrange(0, i as int) =~= all);
}


pub open spec fn id_of(index: int) -> SyntheticFunctionId {
    SyntheticFunctionId { id: index as usize }
}

/// The types with those of the first `count` parameters of a function.
pub open spec fn parameter_types(
    parameters: Seq<Parameter>,
    owner: SyntheticFunctionId,
    types: Map<Slot, VariableType>,
    count: int,
) -> Map<Slot, VariableType>
    decreases count,
{
    if count <= 0 {
        types
    } else {
        let before = parameter_types(parameters, owner, types, count - 1);
        match parameters[count - 1] {
            Parameter::Argument { ordinal, ty } => before.insert(
                Slot::Argument(owner, ordinal),
                ty,
            ),
            Parameter::Slot { variable, ty } => before.insert(Slot::Variable(variable), ty),
        }
    }
}

pub open spec fn all_parameter_types(functions: Seq<FunctionModel>, count: int) -> Map<
    Slot,
    VariableType,
>
    decreases count,
{
    if count <= 0 {
        Map::empty()
    } else {
        parameter_types(
            functions[count - 1].parameters,
            id_of(count - 1),
            all_parameter_types(functions, count - 1),
            functions[count - 1].parameters.len() as int,
        )
    }
}

pub open spec fn all_declared(
    functions: Seq<FunctionModel>,
    types: Map<Slot, VariableType>,
    count: int,
) -> Map<Slot, VariableType>
    decreases count,
{
    if count <= 0 {
        types
    } else {
        declared_with_body(functions[count - 1].body, all_declared(functions, types, count - 1))
    }
}

/// The declared types of all slots.
pub open spec fn types_in(functions: Seq<FunctionModel>) -> Map<Slot, VariableType> {
    all_declared(
        functions,
        all_parameter_types(functions, functions.len() as int),
        functions.len() as int,
    )
}

/// The edges of the copies and calls in the first `count` functions.
pub open spec fn all_links(functions: Seq<FunctionModel>, count: int) -> Seq<(Slot, Slot)>
    decreases count,
{
    if count <= 0 {
        Seq::empty()
    } else {
        linked_with_body(
            functions[count - 1].body,
            all_links(functions, count - 1),
            id_of(count - 1),
            functions,
        )
    }
}

/// The sequences that the first `count` functions walk.
pub open spec fn all_walks(functions: Seq<FunctionModel>, count: int) -> Set<Slot>
    decreases count,
{
    if count <= 0 {
        Set::empty()
    } else {
        walked_with_body(
            functions[count - 1].body,
            all_walks(functions, count - 1),
            id_of(count - 1),
        )
    }
}

/// The slots from which the promotion spreads: the walked ones and the strings.
pub open spec fn first_promoted(functions: Seq<FunctionModel>) -> Set<Slot> {
    let types = types_in(functions);
    let walked = all_walks(functions, functions.len() as int);
    Set::new(
        |s: Slot|
            slot_holds_bytes(types, s) && (walked.contains(s) || types[s] == VariableType::CString),
    )
}

/// The slots after the promotion has spread once along the first `count` edges.
pub open spec fn spread_once(
    promoted: Set<Slot>,
    edges: Seq<(Slot, Slot)>,
    types: Map<Slot, VariableType>,
    count: int,
) -> Set<Slot>
    decreases count,
{
    if count <= 0 {
        promoted
    } else {
        let before = spread_once(promoted, edges, types, count - 1);
        let left = edges[count - 1].0;
        let right = edges[count - 1].1;
        if slot_holds_bytes(types, left) && slot_holds_bytes(types, right) && (before.contains(left)
            || before.contains(right)) {
            before.insert(left).insert(right)
        } else {
            before
        }
    }
}

pub open spec fn spread(
    promoted: Set<Slot>,
    edges: Seq<(Slot, Slot)>,
    types: Map<Slot, VariableType>,
    rounds: nat,
) -> Set<Slot>
    decreases rounds,
{
    if rounds == 0 {
        promoted
    } else {
        spread_once(
            spread(promoted, edges, types, (rounds - 1) as nat),
            edges,
            types,
            edges.len() as int,
        )
    }
}

/// The slots that hold strings: those connected to a walk or to a string. Each
/// round that changes anything promotes an end of an edge, so the rounds are enough
/// to get everywhere.
pub open spec fn promoted_in(functions: Seq<FunctionModel>) -> Set<Slot> {
    let edges = all_links(functions, functions.len() as int);
    spread(first_promoted(functions), edges, types_in(functions), edges.len() * 2)
}

pub open spec fn promoted_type(slot: Slot, ty: VariableType, promoted: Set<Slot>) -> VariableType {
    if promoted.contains(slot) {
        VariableType::CString
    } else {
        ty
    }
}

fn promote(slot: Slot, ty: &VariableType, promoted: &KeySet<Slot>) -> (res: VariableType)
    ensures
        res == promoted_type(slot, *ty, promoted@),
{
    if promoted.contains(slot) {
        VariableType::CString
    } else {
        ty.clone()
    }
}

/// The instruction with the declarations of promoted slots retyped.
pub open spec fn updated(instr: InstModel, promoted: Set<Slot>) -> InstModel
    decreases instr,
{
    match instr {
        InstModel::DeclareVariable { variable, ty } => InstModel::DeclareVariable {
            variable,
            ty: promoted_type(Slot::Variable(variable), ty, promoted),
        },
        InstModel::DeclareAndAssignVariable {
            variable,
            ty,
            value,
        } => InstModel::DeclareAndAssignVariable {
            variable,
            ty: promoted_type(Slot::Variable(variable), ty, promoted),
            value,
        },
        InstModel::If { condition, then_branch, else_branch } => InstModel::If {
            condition,
            then_branch: updated_list(then_branch, promoted),
            else_branch: updated_list(else_branch, promoted),
        },
        InstModel::While { label, entry_offset, condition, body } => InstModel::While {
            label,
            entry_offset,
            condition,
            body: updated_body(body, promoted),
        },
        InstModel::ForEach {
            entry_offset,
            condition_offset,
            advance_offset,
            load_offset,
            variable,
            element_type,
            vector,
            start,
            index_bits,
            body,
        } => InstModel::ForEach {
            entry_offset,
            condition_offset,
            advance_offset,
            load_offset,
            variable,
            element_type,
            vector,
            start,
            index_bits,
            body: updated_body(body, promoted),
        },
        _ => instr,
    }
}

pub open spec fn updated_list(list: Seq<InstModel>, promoted: Set<Slot>) -> Seq<InstModel>
    decreases list,
{
    Seq::new(
        list.len(),
        |i: int|
            if 0 <= i < list.len() {
                updated(list[i], promoted)
            } else {
                arbitrary()
            },
    )
}

pub open spec fn updated_body(
    list: Seq<(usize, InstModel)>,
    promoted: Set<Slot>,
) -> Seq<(usize, InstModel)>
    decreases list,
{
    Seq::new(
        list.len(),
        |i: int|
            if 0 <= i < list.len() {
                (list[i].0, updated(list[i].1, promoted))
            } else {
                arbitrary()
            },
    )
}

fn update(instr: &IRInst, promoted: &KeySet<Slot>) -> (res: IRInst)
    ensures
        res.model() == updated(instr.model(), promoted@),
    decreases instr,
{
    match instr {
        IRInst::DeclareVariable { variable, ty } => IRInst::DeclareVariable {
            variable: *variable,
            ty: promote(Slot::Variable(*variable), ty, promoted),
        },
        IRInst::DeclareAndAssignVariable {
            variable,
            ty,
            value,
        } => IRInst::DeclareAndAssignVariable {
            variable: *variable,
            ty: promote(Slot::Variable(*variable), ty, promoted),
            value: value.clone(),
        },
        IRInst::If { condition, then_branch, else_branch } => IRInst::If {
            condition: condition.clone(),
            then_branch: update_list(then_branch, promoted),
            else_branch: update_list(else_branch, promoted),
        },
        IRInst::While { label, entry_offset, condition, body } => IRInst::While {
            label: *label,
            entry_offset: *entry_offset,
            condition: condition.clone(),
            body: update_body(body, promoted),
        },
        IRInst::ForEach {
            entry_offset,
            condition_offset,
            advance_offset,
            load_offset,
            variable,
            element_type,
            vector,
            start,
            index_bits,
            body,
        } => IRInst::ForEach {
            entry_offset: *entry_offset,
            condition_offset: *condition_offset,
            advance_offset: *advance_offset,
            load_offset: *load_offset,
            variable: *variable,
            element_type: element_type.clone(),
            vector: vector.clone(),
            start: *start,
            index_bits: *index_bits,
            body: update_body(body, promoted),
        },
        _ => instr.clone(),
    }
}

fn update_list(list: &Vec<IRInst>, promoted: &KeySet<Slot>) -> (res: Vec<IRInst>)
    ensures
        models(res@) == updated_list(models(list@), promoted@),
    decreases list,
{
    let ghost all = models(list@);
    let mut res: Vec<IRInst> = Vec::new();
    let mut i: usize = 0;
    while i < list.len()
        invariant
            i <= list@.len(),
            all == models(list@),
            res@.len() == i,
            forall|k: int| 0 <= k < i ==> (#[trigger] res@[k]).model() == updated(
                all[k],
                promoted@,
            ),
        decreases list@.len() - i,
    {
        assert(decreases_to!(list => list@[i as int]));
        res.push(update(&list[i], promoted));
        i = i + 1;
    }
    assert(models(res@) =~= updated_list(all, promoted@));
    res
}

fn update_body(list: &Vec<(usize, IRInst)>, promoted: &KeySet<Slot>) -> (res: Vec<(usize, IRInst)>)
    ensures
        body_models(res@) == updated_body(body_models(list@), promoted@),
    decreases list,
{
    let ghost all = body_models(list@);
    let mut res: Vec<(usize, IRInst)> = Vec::new();
    let mut i: usize = 0;
    while i < list.len()
        invariant
            i <= list@.len(),
            all == body_models(list@),
            res@.len() == i,
            forall|k: int| 0 <= k < i ==> (#[trigger] res@[k]).0 == all[k].0 && res@[k].1.model() == updated(
                all[k].1,
                promoted@,
            ),
        decreases list@.len() - i,
    {
        assert(decreases_to!(list => list@[i as int]));
        res.push((list[i].0, update(&list[i].1, promoted)));
        i = i + 1;
    }
    assert(body_models(res@) =~= updated_body(all, promoted@));
    res
}


pub open spec fn updated_parameter(
    parameter: Parameter,
    owner: SyntheticFunctionId,
    promoted: Set<Slot>,
) -> Parameter {
    match parameter {
        Parameter::Argument { ordinal, ty } => Parameter::Argument {
            ordinal,
            ty: promoted_type(Slot::Argument(owner, ordinal), ty, promoted),
        },
        Parameter::Slot { variable, ty } => Parameter::Slot {
            variable,
            ty: promoted_type(Slot::Variable(variable), ty, promoted),
        },
    }
}

pub open spec fn function_promoted(
    function: FunctionModel,
    owner: SyntheticFunctionId,
    promoted: Set<Slot>,
) -> FunctionModel {
    FunctionModel {
        parameters: function.parameters.map_values(
            |p: Parameter| updated_parameter(p, owner, promoted),
        ),
        body: updated_body(function.body, promoted),
        ..function
    }
}

/// Whether a promotion changes a type.
pub open spec fn changes_types(functions: Seq<FunctionModel>) -> bool {
    exists|s: Slot| #[trigger]
        promoted_in(functions).contains(s) && types_in(functions)[s] != VariableType::CString
}

/// A program in which byte vectors that are connected to a walk up to a zero byte
/// are strings. Direct copies and synthetic call arguments carry the type.
pub open spec fn program_promoted(program: ProgramModel) -> ProgramModel {
    if changes_types(program.functions) {
        let promoted = promoted_in(program.functions);
        ProgramModel {
            functions: Seq::new(
                program.functions.len(),
                |i: int| function_promoted(program.functions[i], id_of(i), promoted),
            ),
            ..program
        }
    } else {
        program
    }
}

/// Only slots that hold bytes become strings.
pub proof fn law_only_bytes_are_promoted(functions: Seq<FunctionModel>, slot: Slot)
    requires
        promoted_in(functions).contains(slot),
    ensures
        slot_holds_bytes(types_in(functions), slot),
{
    let edges = all_links(functions, functions.len() as int);
    lemma_spread_holds_bytes(
        first_promoted(functions),
        edges,
        types_in(functions),
        edges.len() * 2,
        slot,
    );
}

/// A set as a map to nothing.
pub open spec fn marks(slots: Set<Slot>) -> Map<Slot, bool> {
    Map::new(|s: Slot| slots.contains(s), |s: Slot| true)
}

pub open spec fn mark_weight() -> spec_fn(bool) -> nat {
    |mark: bool| 0nat
}

proof fn lemma_spread_once(
    promoted: Set<Slot>,
    edges: Seq<(Slot, Slot)>,
    types: Map<Slot, VariableType>,
    count: int,
)
    requires
        0 <= count <= edges.len(),
    ensures
        promoted.subset_of(spread_once(promoted, edges, types, count)),
        forall|s: Slot|
            spread_once(promoted, edges, types, count).contains(s) && !promoted.contains(s)
                ==> #[trigger] is_end(edges, s),
    decreases count,
{
    if count > 0 {
        lemma_spread_once(promoted, edges, types, count - 1);
        let before = spread_once(promoted, edges, types, count - 1);
        let after = spread_once(promoted, edges, types, count);
        let left = edges[count - 1].0;
        let right = edges[count - 1].1;
        assert(is_end(edges, left) && is_end(edges, right));
        assert forall|s: Slot| after.contains(s) && !promoted.contains(
            s,
        ) implies #[trigger] is_end(edges, s) by {
            if before.contains(s) {
            }
        }
    }
}

proof fn lemma_spread_step(
    promoted: Set<Slot>,
    edges: Seq<(Slot, Slot)>,
    types: Map<Slot, VariableType>,
)
    ensures
        ({
            let after = spread_once(promoted, edges, types, edges.len() as int);
            promoted == after || rank(
                marks(promoted),
                edges,
                mark_weight(),
                edges.len() as int,
            ) < rank(marks(after), edges, mark_weight(), edges.len() as int)
        }),
{
    let after = spread_once(promoted, edges, types, edges.len() as int);
    lemma_spread_once(promoted, edges, types, edges.len() as int);
    assert(grows(marks(promoted), marks(after), mark_weight()));
    assert forall|k: Slot| !is_end(edges, k) implies (#[trigger] marks(promoted).dom().contains(k)
        == marks(after).dom().contains(k)) && (marks(promoted).dom().contains(k) ==> marks(
        promoted,
    )[k] == marks(after)[k]) by {
        if after.contains(k) && !promoted.contains(k) {
            assert(is_end(edges, k));
        }
    }
    lemma_round_raises(marks(promoted), marks(after), edges, mark_weight());
    if marks(promoted) == marks(after) {
        assert forall|k: Slot| promoted.contains(k) == after.contains(k) by {
            assert(marks(promoted).dom().contains(k) == marks(after).dom().contains(k));
        }
        assert(promoted =~= after);
    }
}

proof fn lemma_spread_rounds(
    promoted: Set<Slot>,
    edges: Seq<(Slot, Slot)>,
    types: Map<Slot, VariableType>,
    rounds: nat,
)
    ensures
        spread_once(spread(promoted, edges, types, rounds), edges, types, edges.len() as int)
            == spread(promoted, edges, types, rounds) || rank(
            marks(spread(promoted, edges, types, rounds)),
            edges,
            mark_weight(),
            edges.len() as int,
        ) >= rounds,
    decreases rounds,
{
    if rounds > 0 {
        lemma_spread_rounds(promoted, edges, types, (rounds - 1) as nat);
        lemma_spread_step(spread(promoted, edges, types, (rounds - 1) as nat), edges, types);
    }
}

/// The promotion has spread everywhere: of two byte sequences that a copy or a call
/// connects, both are strings or neither is.
pub proof fn law_promotion_settles(functions: Seq<FunctionModel>, edge: int)
    requires
        0 <= edge < all_links(functions, functions.len() as int).len(),
    ensures
        ({
            let ends = all_links(functions, functions.len() as int)[edge];
            slot_holds_bytes(types_in(functions), ends.0) && slot_holds_bytes(
                types_in(functions),
                ends.1,
            ) ==> promoted_in(functions).contains(ends.0) == promoted_in(functions).contains(ends.1)
        }),
{
    let edges = all_links(functions, functions.len() as int);
    let types = types_in(functions);
    let first = first_promoted(functions);
    let rounds = edges.len() * 2;
    let settled = promoted_in(functions);
    let after = spread_once(settled, edges, types, edges.len() as int);
    lemma_spread_rounds(first, edges, types, rounds);
    lemma_spread_step(settled, edges, types);
    lemma_rank_bound(marks(after), edges, mark_weight(), 0, edges.len() as int);
    assert(after == settled);
    let ends = edges[edge];
    if slot_holds_bytes(types, ends.0) && slot_holds_bytes(types, ends.1) && (settled.contains(
        ends.0,
    ) || settled.contains(ends.1)) {
        lemma_spread_meets(settled, edges, types, edges.len() as int, edge);
    }
}

proof fn lemma_spread_meets(
    promoted: Set<Slot>,
    edges: Seq<(Slot, Slot)>,
    types: Map<Slot, VariableType>,
    count: int,
    edge: int,
)
    requires
        0 <= edge < count <= edges.len(),
        slot_holds_bytes(types, edges[edge].0),
        slot_holds_bytes(types, edges[edge].1),
        promoted.contains(edges[edge].0) || promoted.contains(edges[edge].1),
    ensures
        spread_once(promoted, edges, types, count).contains(edges[edge].0),
        spread_once(promoted, edges, types, count).contains(edges[edge].1),
    decreases count,
{
    if edge == count - 1 {
        lemma_spread_once(promoted, edges, types, count - 1);
    } else {
        lemma_spread_meets(promoted, edges, types, count - 1, edge);
    }
}

proof fn lemma_spread_stays(
    promoted: Set<Slot>,
    edges: Seq<(Slot, Slot)>,
    types: Map<Slot, VariableType>,
    rounds: nat,
    more: nat,
)
    requires
        spread_once(spread(promoted, edges, types, rounds), edges, types, edges.len() as int)
            == spread(promoted, edges, types, rounds),
    ensures
        spread(promoted, edges, types, rounds + more) == spread(promoted, edges, types, rounds),
    decreases more,
{
    if more > 0 {
        lemma_spread_stays(promoted, edges, types, rounds, (more - 1) as nat);
    }
}

proof fn lemma_spread_once_holds_bytes(
    promoted: Set<Slot>,
    edges: Seq<(Slot, Slot)>,
    types: Map<Slot, VariableType>,
    count: int,
    slot: Slot,
)
    requires
        spread_once(promoted, edges, types, count).contains(slot),
        forall|s: Slot| promoted.contains(s) ==> slot_holds_bytes(types, s),
    ensures
        slot_holds_bytes(types, slot),
    decreases count,
{
    if count > 0 {
        if spread_once(promoted, edges, types, count - 1).contains(slot) {
            lemma_spread_once_holds_bytes(promoted, edges, types, count - 1, slot);
        }
    }
}

proof fn lemma_spread_holds_bytes(
    promoted: Set<Slot>,
    edges: Seq<(Slot, Slot)>,
    types: Map<Slot, VariableType>,
    rounds: nat,
    slot: Slot,
)
    requires
        spread(promoted, edges, types, rounds).contains(slot),
        forall|s: Slot| promoted.contains(s) ==> slot_holds_bytes(types, s),
    ensures
        slot_holds_bytes(types, slot),
    decreases rounds,
{
    if rounds > 0 {
        let before = spread(promoted, edges, types, (rounds - 1) as nat);
        assert forall|s: Slot| before.contains(s) implies slot_holds_bytes(types, s) by {
            lemma_spread_holds_bytes(promoted, edges, types, (rounds - 1) as nat, s);
        }
        lemma_spread_once_holds_bytes(before, edges, types, edges.len() as int, slot);
    }
}

fn collect_types(functions: &Vec<SyntheticFunction>) -> (res: Table<Slot, VariableType>)
    ensures
        res@ == types_in(function_models(functions@)),
{
    let ghost all = function_models(functions@);
    let mut types: Table<Slot, VariableType> = Table::new();
    let mut i: usize = 0;
    while i < functions.len()
        invariant
            i <= functions@.len(),
            all == function_models(functions@),
            types@ == all_parameter_types(all, i as int),
        decreases functions@.len() - i,
    {
        assert(all[i as int] == functions@[i as int].model());
        let owner = SyntheticFunctionId { id: i };
        let ghost start = types@;
        let parameters = &functions[i].parameters;
        let mut j: usize = 0;
        while j < parameters.len()
            invariant
                j <= parameters@.len(),
                types@ == parameter_types(parameters@, owner, start, j as int),
            decreases parameters@.len() - j,
        {
            match &parameters[j] {
                Parameter::Argument { ordinal, ty } => {
                    types.insert(Slot::Argument(owner, *ordinal), ty.clone());
                },
                Parameter::Slot { variable, ty } => {
                    types.insert(Slot::Variable(*variable), ty.clone());
                },
            }
            j = j + 1;
        }
        i = i + 1;
    }
    let ghost start = types@;
    let mut i: usize = 0;
    while i < functions.len()
        invariant
            i <= functions@.len(),
            all == function_models(functions@),
            types@ == all_declared(all, start, i as int),
        decreases functions@.len() - i,
    {
        assert(all[i as int] == functions@[i as int].model());
        declarations_body(&functions[i].body, &mut types);
        i = i + 1;
    }
    types
}

fn collect_links(functions: &Vec<SyntheticFunction>) -> (res: Vec<(Slot, Slot)>)
    ensures
        res@ == all_links(function_models(functions@), functions@.len() as int),
{
    let ghost all = function_models(functions@);
    let mut edges: Vec<(Slot, Slot)> = Vec::new();
    assert(edges@ =~= Seq::<(Slot, Slot)>::empty());
    let mut i: usize = 0;
    while i < functions.len()
        invariant
            i <= functions@.len(),
            all == function_models(functions@),
            edges@ == all_links(all, i as int),
        decreases functions@.len() - i,
    {
        assert(all[i as int] == functions@[i as int].model());
        links_body(&functions[i].body, &mut edges, SyntheticFunctionId { id: i }, functions);
        i = i + 1;
    }
    edges
}

fn collect_walks(functions: &Vec<SyntheticFunction>) -> (res: KeySet<Slot>)
    ensures
        res@ == all_walks(function_models(functions@), functions@.len() as int),
{
    let ghost all = function_models(functions@);
    let mut seeds: KeySet<Slot> = KeySet::new();
    let mut i: usize = 0;
    while i < functions.len()
        invariant
            i <= functions@.len(),
            all == function_models(functions@),
            seeds@ == all_walks(all, i as int),
        decreases functions@.len() - i,
    {
        assert(all[i as int] == functions@[i as int].model());
        walks_body(&functions[i].body, &mut seeds, SyntheticFunctionId { id: i });
        i = i + 1;
    }
    seeds
}

fn is_string(types: &Table<Slot, VariableType>, slot: Slot) -> (res: bool)
    ensures
        res == (types@.dom().contains(slot) && types@[slot] == VariableType::CString),
{
    match types.get(slot) {
        Some(ty) => ty.same(&VariableType::CString),
        None => false,
    }
}

fn collect_first(
    functions: &Vec<SyntheticFunction>,
    types: &Table<Slot, VariableType>,
) -> (res: KeySet<
    Slot,
>)
    requires
        types@ == types_in(function_models(functions@)),
    ensures
        res@ == first_promoted(function_models(functions@)),
{
    let walked: KeySet<Slot> = collect_walks(functions);
    let ghost first = first_promoted(function_models(functions@));
    let mut res: KeySet<Slot> = KeySet::new();
    let slots: Vec<Slot> = types.keys();
    let mut i: usize = 0;
    while i < slots.len()
        invariant
            i <= slots@.len(),
            types@ == types_in(function_models(functions@)),
            walked@ == all_walks(function_models(functions@), functions@.len() as int),
            first == first_promoted(function_models(functions@)),
            forall|s: Slot| res@.contains(s) ==> first.contains(s),
            forall|k: int| 0 <= k < i && first.contains(
                #[trigger] slots@[k],
            ) ==> res@.contains(slots@[k]),
        decreases slots@.len() - i,
    {
        let slot: Slot = slots[i];
        if byte_slot(types, slot) && (walked.contains(slot) || is_string(types, slot)) {
            res.insert(slot);
        }
        i = i + 1;
    }
    assert forall|s: Slot| first.contains(s) implies res@.contains(s) by {
        assert(slots@.contains(s));
        let k = choose|k: int| 0 <= k < slots@.len() && slots@[k] == s;
        assert(first.contains(slots@[k]));
    }
    assert(res@ =~= first);
    res
}

fn collect_promoted(
    functions: &Vec<SyntheticFunction>,
    types: &Table<Slot, VariableType>,
) -> (res: KeySet<
    Slot,
>)
    requires
        types@ == types_in(function_models(functions@)),
    ensures
        res@ == promoted_in(function_models(functions@)),
{
    let edges: Vec<(Slot, Slot)> = collect_links(functions);
    let mut promoted: KeySet<Slot> = collect_first(functions, types);
    let ghost first = promoted@;
    let rounds: u128 = (edges.len() as u128) * 2;
    let mut round: u128 = 0;
    let mut going: bool = true;
    while going && round < rounds
        invariant
            round <= rounds,
            going ==> promoted@ == spread(first, edges@, types@, round as nat),
            !going ==> promoted@ == spread(first, edges@, types@, rounds as nat),
        decreases rounds - round, going as int,
    {
        going = spread_along(&mut promoted, &edges, types);
        if !going {
            proof {
                lemma_spread_stays(
                    first,
                    edges@,
                    types@,
                    round as nat,
                    (rounds - round) as nat,
                );
            }
        } else {
            round = round + 1;
        }
    }
    promoted
}

/// Spreads the promotion along the edges once, and returns whether it changed.
fn spread_along(
    promoted: &mut KeySet<Slot>,
    edges: &Vec<(Slot, Slot)>,
    types: &Table<Slot, VariableType>,
) -> (res: bool)
    ensures
        final(promoted)@ == spread_once(old(promoted)@, edges@, types@, edges@.len() as int),
        !res ==> final(promoted)@ == old(promoted)@,
{
    let ghost before = promoted@;
    let mut changed: bool = false;
    let mut i: usize = 0;
    while i < edges.len()
        invariant
            i <= edges@.len(),
            promoted@ == spread_once(before, edges@, types@, i as int),
            !changed ==> promoted@ == before,
        decreases edges@.len() - i,
    {
        let (left, right) = edges[i];
        let ghost current = promoted@;
        if byte_slot(types, left) && byte_slot(types, right) && (promoted.contains(left)
            || promoted.contains(right)) {
            if promoted.insert(left) {
                changed = true;
            }
            if promoted.insert(right) {
                changed = true;
            }
            assert(!changed ==> promoted@ =~= current);
        }
        i = i + 1;
    }
    changed
}

fn has_change(
    promoted: &KeySet<Slot>,
    types: &Table<Slot, VariableType>,
    functions: &Vec<SyntheticFunction>,
) -> (res: bool)
    requires
        types@ == types_in(function_models(functions@)),
        promoted@ == promoted_in(function_models(functions@)),
    ensures
        res == changes_types(function_models(functions@)),
{
    let ghost all = function_models(functions@);
    let items = promoted.items();
    let mut i: usize = 0;
    while i < items.len()
        invariant
            i <= items@.len(),
            all == function_models(functions@),
            types@ == types_in(all),
            promoted@ == promoted_in(all),
            forall|s: Slot| promoted@.contains(s) <==> #[trigger] items@.contains(s),
            forall|k: int| 0 <= k < i ==> types@[#[trigger] items@[k]] == VariableType::CString,
        decreases items@.len() - i,
    {
        let slot: Slot = items[i];
        assert(items@.contains(slot));
        proof {
            law_only_bytes_are_promoted(all, slot);
        }
        if !is_string(types, slot) {
            assert(promoted_in(all).contains(slot));
            return true;
        }
        i = i + 1;
    }
    assert forall|s: Slot| #[trigger] promoted_in(all).contains(s) implies types@[s]
        == VariableType::CString by {
        assert(items@.contains(s));
        let k = choose|k: int| 0 <= k < items@.len() && items@[k] == s;
        assert(types@[items@[k]] == VariableType::CString);
    }
    false
}

fn update_parameters(
    parameters: &Vec<Parameter>,
    owner: SyntheticFunctionId,
    promoted: &KeySet<Slot>,
) -> (res: Vec<Parameter>)
    ensures
        res@ == parameters@.map_values(|p: Parameter| updated_parameter(p, owner, promoted@)),
{
    let mut res: Vec<Parameter> = Vec::new();
    let mut i: usize = 0;
    while i < parameters.len()
        invariant
            i <= parameters@.len(),
            res@.len() == i,
            forall|k: int|
                0 <= k < i ==> (#[trigger] res@[k]) == updated_parameter(
                    parameters@[k],
                    owner,
                    promoted@,
                ),
        decreases parameters@.len() - i,
    {
        let made: Parameter = match &parameters[i] {
            Parameter::Argument { ordinal, ty } => Parameter::Argument {
                ordinal: *ordinal,
                ty: promote(Slot::Argument(owner, *ordinal), ty, promoted),
            },
            Parameter::Slot { variable, ty } => Parameter::Slot {
                variable: *variable,
                ty: promote(Slot::Variable(*variable), ty, promoted),
            },
        };
        res.push(made);
        i = i + 1;
    }
    assert(res@ =~= parameters@.map_values(|p: Parameter| updated_parameter(p, owner, promoted@)));
    res
}

/// Promotes the byte vectors of a program that are strings.
pub fn run(program: &mut Program)
    ensures
        final(program).model() == program_promoted(old(program).model()),
{
    let ghost before = function_models(program.functions@);
    let ghost initial = *program;
    let types: Table<Slot, VariableType> = collect_types(&program.functions);
    let promoted: KeySet<Slot> = collect_promoted(&program.functions, &types);
    if !has_change(&promoted, &types, &program.functions) {
        return;
    }
    let total: usize = program.functions.len();
    let mut i: usize = 0;
    while i < total
        invariant
            i <= total,
            total == program.functions@.len(),
            total == before.len(),
            promoted@ == promoted_in(before),
            *program == (Program { functions: program.functions, ..initial }),
            forall|k: int|
                0 <= k < i ==> (#[trigger] program.functions@[k]).model() == function_promoted(
                    before[k],
                    id_of(k),
                    promoted@,
                ),
            forall|k: int|
                i <= k < total ==> (#[trigger] program.functions@[k]).model() == before[k],
        decreases total - i,
    {
        let owner = SyntheticFunctionId { id: i };
        let parameters: Vec<Parameter> = update_parameters(
            &program.functions[i].parameters,
            owner,
            &promoted,
        );
        let body: Vec<(usize, IRInst)> = update_body(&program.functions[i].body, &promoted);
        program.functions[i].parameters = parameters;
        program.functions[i].body = body;
        i = i + 1;
    }
    assert(program.model().functions =~= program_promoted(initial.model()).functions);
}

} // verus!
