//! Lifting a tier 5 program loses nothing.
use super::{
    body_of, branch_of, condition_of, data_slot_of, expression_of, expressions_of, field_in,
    function_in, instruction_of, kind_of, lifted, parameter_of, struct_of, type_of,
};
use crate::irt5::ir as t5;
use vstd::prelude::*;

verus! {

proof fn lemma_kinds(a: t5::IRBinOpKind, b: t5::IRBinOpKind)
    requires
        kind_of(a) == kind_of(b),
    ensures
        a == b,
{
}

proof fn lemma_types(a: t5::VariableType, b: t5::VariableType)
    requires
        type_of(a) == type_of(b),
    ensures
        a == b,
    decreases a,
{
    match (a, b) {
        (t5::VariableType::Pointer(x), t5::VariableType::Pointer(y)) => lemma_types(*x, *y),
        (t5::VariableType::Vector(x), t5::VariableType::Vector(y)) => lemma_types(*x, *y),
        _ => {},
    }
}

proof fn lemma_expressions(a: t5::IRExpr, b: t5::IRExpr)
    requires
        expression_of(a) == expression_of(b),
    ensures
        a == b,
    decreases a,
{
    match (a, b) {
        (
            t5::IRExpr::BinOp { kind, lhs, rhs },
            t5::IRExpr::BinOp { kind: kind2, lhs: lhs2, rhs: rhs2 },
        ) => {
            lemma_kinds(kind, kind2);
            lemma_expressions(*lhs, *lhs2);
            lemma_expressions(*rhs, *rhs2);
        },
        (t5::IRExpr::Deref(x), t5::IRExpr::Deref(y)) => lemma_expressions(*x, *y),
        (
            t5::IRExpr::MemoryAddress { address, .. },
            t5::IRExpr::MemoryAddress { address: address2, .. },
        ) => lemma_expressions(*address, *address2),
        (
            t5::IRExpr::ElementAddress { base, index, .. },
            t5::IRExpr::ElementAddress { base: base2, index: index2, .. },
        ) => {
            lemma_expressions(*base, *base2);
            lemma_expressions(*index, *index2);
        },
        (t5::IRExpr::Convert { value, .. }, t5::IRExpr::Convert { value: value2, .. }) => {
            lemma_expressions(*value, *value2);
        },
        (t5::IRExpr::Not(x), t5::IRExpr::Not(y)) => lemma_expressions(*x, *y),
        _ => {},
    }
}

proof fn lemma_expression_lists(a: Seq<t5::IRExpr>, b: Seq<t5::IRExpr>)
    requires
        expressions_of(a) == expressions_of(b),
    ensures
        a == b,
{
    let left = expressions_of(a);
    let right = expressions_of(b);
    assert(left.len() == a.len());
    assert(right.len() == b.len());
    assert forall|i: int| 0 <= i < a.len() implies #[trigger] a[i] == b[i] by {
        assert(left[i] == expression_of(a[i]));
        assert(right[i] == expression_of(b[i]));
        lemma_expressions(a[i], b[i]);
    }
    assert(a =~= b);
}

proof fn lemma_conditions(a: t5::LoopCondition, b: t5::LoopCondition)
    requires
        condition_of(a) == condition_of(b),
    ensures
        a == b,
{
    match (a, b) {
        (
            t5::LoopCondition::Before { expression, .. },
            t5::LoopCondition::Before { expression: expression2, .. },
        ) => lemma_expressions(expression, expression2),
        (
            t5::LoopCondition::After { expression, .. },
            t5::LoopCondition::After { expression: expression2, .. },
        ) => lemma_expressions(expression, expression2),
        _ => {},
    }
}

proof fn lemma_instructions(a: t5::InstModel, b: t5::InstModel)
    requires
        instruction_of(a) == instruction_of(b),
    ensures
        a == b,
    decreases a,
{
    match (a, b) {
        (
            t5::InstModel::Assign { dest, src },
            t5::InstModel::Assign { dest: dest2, src: src2 },
        ) => {
            lemma_expressions(dest, dest2);
            lemma_expressions(src, src2);
        },
        (t5::InstModel::Return(Some(x)), t5::InstModel::Return(Some(y))) => {
            lemma_expressions(x, y);
        },
        (
            t5::InstModel::DeclareVariable { ty, .. },
            t5::InstModel::DeclareVariable { ty: ty2, .. },
        ) => lemma_types(ty, ty2),
        (
            t5::InstModel::DeclareAndAssignVariable { ty, value, .. },
            t5::InstModel::DeclareAndAssignVariable { ty: ty2, value: value2, .. },
        ) => {
            lemma_types(ty, ty2);
            lemma_expressions(value, value2);
        },
        (
            t5::InstModel::AssignVariable { value, .. },
            t5::InstModel::AssignVariable { value: value2, .. },
        ) => lemma_expressions(value, value2),
        (
            t5::InstModel::LoadVariable { address, .. },
            t5::InstModel::LoadVariable { address: address2, .. },
        ) => lemma_expressions(address, address2),
        (
            t5::InstModel::StoreVariable { address, .. },
            t5::InstModel::StoreVariable { address: address2, .. },
        ) => lemma_expressions(address, address2),
        (
            t5::InstModel::If { condition, then_branch, else_branch },
            t5::InstModel::If {
                condition: condition2,
                then_branch: then_branch2,
                else_branch: else_branch2,
            },
        ) => {
            lemma_expressions(condition, condition2);
            lemma_branches(then_branch, then_branch2);
            lemma_branches(else_branch, else_branch2);
        },
        (
            t5::InstModel::While { condition, body, .. },
            t5::InstModel::While { condition: condition2, body: body2, .. },
        ) => {
            lemma_conditions(condition, condition2);
            lemma_bodies(body, body2);
        },
        (
            t5::InstModel::CallSynthetic { arguments, .. },
            t5::InstModel::CallSynthetic { arguments: arguments2, .. },
        ) => lemma_expression_lists(arguments, arguments2),
        (t5::InstModel::Jump(x), t5::InstModel::Jump(y)) => lemma_expressions(x, y),
        _ => {},
    }
}

proof fn lemma_branches(a: Seq<t5::InstModel>, b: Seq<t5::InstModel>)
    requires
        branch_of(a) == branch_of(b),
    ensures
        a == b,
    decreases a,
{
    let left = branch_of(a);
    let right = branch_of(b);
    assert(left.len() == a.len());
    assert(right.len() == b.len());
    assert forall|i: int| 0 <= i < a.len() implies #[trigger] a[i] == b[i] by {
        assert(left[i] == instruction_of(a[i]));
        assert(right[i] == instruction_of(b[i]));
        lemma_instructions(a[i], b[i]);
    }
    assert(a =~= b);
}

proof fn lemma_bodies(a: Seq<(usize, t5::InstModel)>, b: Seq<(usize, t5::InstModel)>)
    requires
        body_of(a) == body_of(b),
    ensures
        a == b,
    decreases a,
{
    let left = body_of(a);
    let right = body_of(b);
    assert(left.len() == a.len());
    assert(right.len() == b.len());
    assert forall|i: int| 0 <= i < a.len() implies #[trigger] a[i] == b[i] by {
        assert(left[i] == (a[i].0, instruction_of(a[i].1)));
        assert(right[i] == (b[i].0, instruction_of(b[i].1)));
        lemma_instructions(a[i].1, b[i].1);
    }
    assert(a =~= b);
}

proof fn lemma_functions(a: t5::FunctionModel, b: t5::FunctionModel)
    requires
        function_in(a) == function_in(b),
    ensures
        a == b,
{
    lemma_bodies(a.body, b.body);
    let left = function_in(a).parameters;
    let right = function_in(b).parameters;
    assert(left.len() == right.len());
    assert forall|i: int| 0 <= i < a.parameters.len() implies #[trigger] a.parameters[i]
        == b.parameters[i] by {
        assert(left[i] == parameter_of(a.parameters[i]));
        assert(right[i] == parameter_of(b.parameters[i]));
        match (a.parameters[i], b.parameters[i]) {
            (t5::Parameter::Argument { ty, .. }, t5::Parameter::Argument { ty: ty2, .. }) => {
                lemma_types(ty, ty2);
            },
            (t5::Parameter::Slot { ty, .. }, t5::Parameter::Slot { ty: ty2, .. }) => {
                lemma_types(ty, ty2);
            },
            _ => {},
        }
    }
    assert(a.parameters =~= b.parameters);
}

proof fn lemma_structs(a: t5::StructModel, b: t5::StructModel)
    requires
        struct_of(a) == struct_of(b),
    ensures
        a == b,
{
    let left = struct_of(a).fields;
    let right = struct_of(b).fields;
    assert(left.len() == right.len());
    assert forall|i: int| 0 <= i < a.fields.len() implies #[trigger] a.fields[i]
        == b.fields[i] by {
        assert(left[i] == field_in(a.fields[i]));
        assert(right[i] == field_in(b.fields[i]));
        lemma_types(a.fields[i].ty, b.fields[i].ty);
    }
    assert(a.fields =~= b.fields);
}

/// Lifting is lossless: programs that become the same are the same.
pub proof fn law_lifting_is_lossless(a: t5::ProgramModel, b: t5::ProgramModel)
    requires
        lifted(a) == lifted(b),
    ensures
        a == b,
{
    let left = lifted(a);
    let right = lifted(b);
    assert(left.functions.len() == right.functions.len());
    assert forall|i: int| 0 <= i < a.functions.len() implies #[trigger] a.functions[i]
        == b.functions[i] by {
        assert(left.functions[i] == function_in(a.functions[i]));
        assert(right.functions[i] == function_in(b.functions[i]));
        lemma_functions(a.functions[i], b.functions[i]);
    }
    assert(a.functions =~= b.functions);
    assert(left.structs.len() == right.structs.len());
    assert forall|i: int| 0 <= i < a.structs.len() implies #[trigger] a.structs[i]
        == b.structs[i] by {
        assert(left.structs[i] == struct_of(a.structs[i]));
        assert(right.structs[i] == struct_of(b.structs[i]));
        lemma_structs(a.structs[i], b.structs[i]);
    }
    assert(a.structs =~= b.structs);
    assert(left.data.len() == right.data.len());
    assert forall|i: int| 0 <= i < a.data.len() implies #[trigger] a.data[i] == b.data[i] by {
        assert(left.data[i] == data_slot_of(a.data[i]));
        assert(right.data[i] == data_slot_of(b.data[i]));
        lemma_types(a.data[i].ty, b.data[i].ty);
    }
    assert(a.data =~= b.data);
}

} // verus!
