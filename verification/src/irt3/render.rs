//! A readable view of tier 3 for manual debugging.
use super::ir::{
    body_models, function_models, models, FunctionModel, IRBinOpKind, IRExpr, IRInst, InstModel,
    IntegerType, LoopId, Parameter, Program, ProgramModel, SyntheticFunction, SyntheticFunctionId,
    VariableId, VariableType,
};
use crate::text::{decimal, hex, owned, put, put_decimal, put_hex};
use crate::x86::{register_text, Register};
use vstd::prelude::*;

verus! {

/// The text after the name of a function.
pub open spec fn function_name_text(out: Seq<char>, id: SyntheticFunctionId) -> Seq<char> {
    out + "fn_"@ + decimal(id.id as nat)
}

fn function_name(out: &mut String, id: SyntheticFunctionId)
    ensures
        final(out)@ == function_name_text(old(out)@, id),
{
    put(out, "fn_");
    put_decimal(out, id.id as u128);
}

/// The text after the name of a variable.
pub open spec fn variable_name_text(out: Seq<char>, id: VariableId) -> Seq<char> {
    out + "v"@ + decimal(id.id as nat)
}

fn variable_name(out: &mut String, id: VariableId)
    ensures
        final(out)@ == variable_name_text(old(out)@, id),
{
    put(out, "v");
    put_decimal(out, id.id as u128);
}

/// The text after the name of a register.
pub open spec fn register_name_text(out: Seq<char>, register: Register) -> Seq<char> {
    out + register_text(register.number)
}

fn register_name(out: &mut String, register: Register)
    ensures
        final(out)@ == register_name_text(old(out)@, register),
{
    let name: String = register.name();
    put(out, name.as_str());
}

pub open spec fn truth_text(value: bool) -> Seq<char> {
    if value {
        "true"@
    } else {
        "false"@
    }
}

/// How tightly an expression binds. The levels follow TypeScript operators, so an
/// expression keeps its grouping when printed.
pub open spec fn binding(expr: IRExpr) -> int {
    match expr {
        IRExpr::BinOp { kind, .. } => match kind {
            IRBinOpKind::Add => 5,
            IRBinOpKind::Sub => 5,
            IRBinOpKind::Mul => 5,
            IRBinOpKind::Shl => 4,
            IRBinOpKind::Shr => 4,
            IRBinOpKind::BitOr => 2,
            IRBinOpKind::And => 2,
            IRBinOpKind::Or => 1,
            IRBinOpKind::Eq => 3,
            IRBinOpKind::SignedGt => 7,
            IRBinOpKind::UnsignedLt => 7,
        },
        IRExpr::Not(_) => 6,
        IRExpr::Deref(_) => 6,
        IRExpr::CastUnknownPtr { .. } => 6,
        _ => 7,
    }
}

fn precedence(expr: &IRExpr) -> (res: u8)
    ensures
        res == binding(*expr),
{
    match expr {
        IRExpr::BinOp { kind, .. } => match *kind {
            IRBinOpKind::Add => 5,
            IRBinOpKind::Sub => 5,
            IRBinOpKind::Mul => 5,
            IRBinOpKind::Shl => 4,
            IRBinOpKind::Shr => 4,
            IRBinOpKind::BitOr => 2,
            IRBinOpKind::And => 2,
            IRBinOpKind::Or => 1,
            IRBinOpKind::Eq => 3,
            IRBinOpKind::SignedGt => 7,
            IRBinOpKind::UnsignedLt => 7,
        },
        IRExpr::Not(_) => 6,
        IRExpr::Deref(_) => 6,
        IRExpr::CastUnknownPtr { .. } => 6,
        _ => 7,
    }
}

/// The operator of an operation that is written between its operands.
pub open spec fn operator_text(kind: IRBinOpKind) -> Seq<char> {
    match kind {
        IRBinOpKind::Add => "+"@,
        IRBinOpKind::Sub => "-"@,
        IRBinOpKind::Mul => "*"@,
        IRBinOpKind::Shl => "<<"@,
        IRBinOpKind::Shr => ">>>"@,
        IRBinOpKind::BitOr => "|"@,
        IRBinOpKind::And => "&"@,
        IRBinOpKind::Or => "||"@,
        IRBinOpKind::Eq => "==="@,
        IRBinOpKind::SignedGt => ">"@,
        IRBinOpKind::UnsignedLt => ""@,
    }
}

fn binary_operator(kind: IRBinOpKind) -> (res: &'static str)
    ensures
        res@ == operator_text(kind),
{
    match kind {
        IRBinOpKind::Add => "+",
        IRBinOpKind::Sub => "-",
        IRBinOpKind::Mul => "*",
        IRBinOpKind::Shl => "<<",
        IRBinOpKind::Shr => ">>>",
        IRBinOpKind::BitOr => "|",
        IRBinOpKind::And => "&",
        IRBinOpKind::Or => "||",
        IRBinOpKind::Eq => "===",
        IRBinOpKind::SignedGt => ">",
        IRBinOpKind::UnsignedLt => "",
    }
}

/// The text after the name of an integer type.
pub open spec fn integer_text(out: Seq<char>, ty: IntegerType) -> Seq<char> {
    out + ty.name_text()
}

fn put_integer(out: &mut String, ty: IntegerType)
    ensures
        final(out)@ == integer_text(old(out)@, ty),
{
    let name: String = ty.name();
    put(out, name.as_str());
}

/// The text after the type of a variable.
pub open spec fn type_text(out: Seq<char>, ty: VariableType) -> Seq<char> {
    match ty {
        VariableType::Unknown(Some(size)) => out + "Unknown<"@ + decimal(size as nat) + ">"@,
        VariableType::Unknown(None) => out + "Unknown"@,
        VariableType::Register(register) => register_name_text(out + "Register<"@, register) + ">"@,
        VariableType::Bool => out + "Bool"@,
    }
}

fn put_type(out: &mut String, ty: VariableType)
    ensures
        final(out)@ == type_text(old(out)@, ty),
{
    match ty {
        VariableType::Unknown(Some(size)) => {
            put(out, "Unknown<");
            put_decimal(out, size as u128);
            put(out, ">");
        },
        VariableType::Unknown(None) => {
            put(out, "Unknown");
        },
        VariableType::Register(register) => {
            put(out, "Register<");
            register_name(out, register);
            put(out, ">");
        },
        VariableType::Bool => {
            put(out, "Bool");
        },
    }
}

/// The text after an operand; a nested operation is always in parentheses.
pub open spec fn operand_text(out: Seq<char>, expr: IRExpr, parent: int) -> Seq<char>
    decreases expr, 2nat,
{
    if expr is BinOp {
        shown(out + "("@, expr, 0) + ")"@
    } else {
        shown(out, expr, parent)
    }
}

/// The text after an expression without parentheses of its own.
pub open spec fn bare_text(out: Seq<char>, expr: IRExpr) -> Seq<char>
    decreases expr, 0nat,
{
    let own = binding(expr);
    match expr {
        IRExpr::BinOp { kind, lhs, rhs } => if kind == IRBinOpKind::UnsignedLt {
            operand_text(operand_text(out + "unsignedLt("@, *lhs, 0) + ", "@, *rhs, 0) + ")"@
        } else {
            operand_text(
                operand_text(out, *lhs, own) + " "@ + operator_text(kind) + " "@,
                *rhs,
                own + 1,
            )
        },
        IRExpr::Deref(address) => shown(out + "*("@, *address, 0) + ")"@,
        IRExpr::CastUnknownPtr { address, size: Some(size) } => shown(
            out + "(Unknown<"@ + decimal(size as nat) + ">*)("@,
            *address,
            0,
        ) + ")"@,
        IRExpr::CastUnknownPtr { address, size: None } => shown(
            out + "(Unknown*)("@,
            *address,
            0,
        ) + ")"@,
        IRExpr::Argument(ordinal) => out + "arg"@ + decimal(ordinal as nat),
        IRExpr::Convert { value, source, target } => shown(
            integer_text(integer_text(out, target) + "("@, source) + "("@,
            *value,
            0,
        ) + "))"@,
        IRExpr::CU8(value) => out + "0x"@ + hex(value as nat),
        IRExpr::CU32(value) => out + "0x"@ + hex(value as nat),
        IRExpr::CU64(value) => out + "0x"@ + hex(value as nat),
        IRExpr::Variable(variable) => variable_name_text(out, variable),
        IRExpr::Data(id) => out + "data_0x"@ + hex(id.id as nat),
        IRExpr::Bool(value) => out + truth_text(value),
        IRExpr::Not(inner) => operand_text(out + "!"@, *inner, own),
    }
}

/// The text after an expression, in parentheses where it binds less tightly than
/// `parent`.
pub open spec fn shown(out: Seq<char>, expr: IRExpr, parent: int) -> Seq<char>
    decreases expr, 1nat,
{
    if binding(expr) < parent {
        bare_text(out + "("@, expr) + ")"@
    } else {
        bare_text(out, expr)
    }
}

fn binary_operand(out: &mut String, expr: &IRExpr, parent: u8)
    ensures
        final(out)@ == operand_text(old(out)@, *expr, parent as int),
    decreases expr, 2nat,
{
    if matches!(expr, IRExpr::BinOp { .. }) {
        put(out, "(");
        expression(out, expr, 0);
        put(out, ")");
    } else {
        expression(out, expr, parent);
    }
}

fn bare(out: &mut String, expr: &IRExpr)
    ensures
        final(out)@ == bare_text(old(out)@, *expr),
    decreases expr, 0nat,
{
    let own: u8 = precedence(expr);
    match expr {
        IRExpr::BinOp { kind, lhs, rhs } => {
            if *kind == IRBinOpKind::UnsignedLt {
                put(out, "unsignedLt(");
                binary_operand(out, lhs, 0);
                put(out, ", ");
                binary_operand(out, rhs, 0);
                put(out, ")");
            } else {
                binary_operand(out, lhs, own);
                put(out, " ");
                put(out, binary_operator(*kind));
                put(out, " ");
                binary_operand(out, rhs, own + 1);
            }
        },
        IRExpr::Deref(address) => {
            put(out, "*(");
            expression(out, address, 0);
            put(out, ")");
        },
        IRExpr::CastUnknownPtr { address, size: Some(size) } => {
            put(out, "(Unknown<");
            put_decimal(out, *size as u128);
            put(out, ">*)(");
            expression(out, address, 0);
            put(out, ")");
        },
        IRExpr::CastUnknownPtr { address, size: None } => {
            put(out, "(Unknown*)(");
            expression(out, address, 0);
            put(out, ")");
        },
        IRExpr::Argument(ordinal) => {
            put(out, "arg");
            put_decimal(out, *ordinal as u128);
        },
        IRExpr::Convert { value, source, target } => {
            put_integer(out, *target);
            put(out, "(");
            put_integer(out, *source);
            put(out, "(");
            expression(out, value, 0);
            put(out, "))");
        },
        IRExpr::CU8(value) => {
            put(out, "0x");
            put_hex(out, *value as u128);
        },
        IRExpr::CU32(value) => {
            put(out, "0x");
            put_hex(out, *value as u128);
        },
        IRExpr::CU64(value) => {
            put(out, "0x");
            put_hex(out, *value as u128);
        },
        IRExpr::Variable(variable) => {
            variable_name(out, *variable);
        },
        IRExpr::Data(id) => {
            put(out, "data_0x");
            put_hex(out, id.id as u128);
        },
        IRExpr::Bool(value) => {
            put(
                out,
                if *value {
                    "true"
                } else {
                    "false"
                },
            );
        },
        IRExpr::Not(inner) => {
            put(out, "!");
            binary_operand(out, inner, own);
        },
    }
}

fn expression(out: &mut String, expr: &IRExpr, parent: u8)
    ensures
        final(out)@ == shown(old(out)@, *expr, parent as int),
    decreases expr, 1nat,
{
    if precedence(expr) < parent {
        put(out, "(");
        bare(out, expr);
        put(out, ")");
    } else {
        bare(out, expr);
    }
}

/// The text after a list of arguments.
pub open spec fn arguments_text(out: Seq<char>, list: Seq<IRExpr>) -> Seq<char>
    decreases list.len(),
{
    if list.len() == 0 {
        out
    } else {
        let listed = arguments_text(out, list.drop_last());
        let separated = if list.len() > 1 {
            listed + ", "@
        } else {
            listed
        };
        shown(separated, list.last(), 0)
    }
}

fn put_arguments(out: &mut String, list: &Vec<IRExpr>)
    ensures
        final(out)@ == arguments_text(old(out)@, list@),
{
    assert(list@.subrange(0, 0) =~= Seq::empty());
    let mut i: usize = 0;
    while i < list.len()
        invariant
            i <= list@.len(),
            out@ == arguments_text(old(out)@, list@.subrange(0, i as int)),
        decreases list@.len() - i,
    {
        let ghost prefix = list@.subrange(0, i + 1);
        assert(prefix.drop_last() =~= list@.subrange(0, i as int));
        if i > 0 {
            put(out, ", ");
        }
        expression(out, &list[i], 0);
        i = i + 1;
    }
    assert(list@.subrange(0, i as int) =~= list@);
}

/// The text after a loop's label.
pub open spec fn label_text(out: Seq<char>, label: Option<LoopId>) -> Seq<char> {
    match label {
        Some(label) => out + "loop_"@ + decimal(label.id as nat) + ": "@,
        None => out,
    }
}

fn put_label(out: &mut String, label: &Option<LoopId>)
    ensures
        final(out)@ == label_text(old(out)@, *label),
{
    if let Some(label) = label {
        put(out, "loop_");
        put_decimal(out, label.id as u128);
        put(out, ": ");
    }
}

/// The text after an instruction, on lines that begin with `padding`.
pub open spec fn instruction_text(
    out: Seq<char>,
    instr: InstModel,
    padding: Seq<char>,
    address_comments: bool,
) -> Seq<char>
    decreases instr,
{
    let nested = padding + "    "@;
    match instr {
        InstModel::Assign { dest, src } => shown(
            shown(out + padding, dest, 0) + " = "@,
            src,
            0,
        ) + ";\n"@,
        InstModel::Return(Some(value)) => shown(out + padding + "return "@, value, 0) + ";\n"@,
        InstModel::Return(None) => out + padding + "return;\n"@,
        InstModel::DeclareVariable { variable, ty } => type_text(
            variable_name_text(out + padding + "let "@, variable) + ": "@,
            ty,
        ) + ";\n"@,
        InstModel::AssignVariable { variable, value } => shown(
            variable_name_text(out + padding, variable) + " = "@,
            value,
            0,
        ) + ";\n"@,
        InstModel::LoadVariable { variable, address } => shown(
            variable_name_text(out + padding, variable) + " = *("@,
            address,
            0,
        ) + ");\n"@,
        InstModel::StoreVariable { address, variable } => variable_name_text(
            shown(out + padding + "*("@, address, 0) + ") = "@,
            variable,
        ) + ";\n"@,
        InstModel::Break => out + padding + "break;\n"@,
        InstModel::Continue => out + padding + "continue;\n"@,
        InstModel::ContinueLoop(label) => out + padding + "continue loop_"@ + decimal(
            label.id as nat,
        ) + ";\n"@,
        InstModel::CallSynthetic { function, arguments } => arguments_text(
            function_name_text(out + padding + "return "@, function) + "("@,
            arguments,
        ) + ");\n"@,
        InstModel::Jump(target) => shown(out + padding + "jump("@, target, 0) + ");\n"@,
        InstModel::End => out + padding + "end();\n"@,
        InstModel::If { condition, then_branch, else_branch } => {
            let opened = shown(out + padding + "if ("@, condition, 0) + ") {\n"@;
            let first = instructions_text(opened, then_branch, nested, address_comments);
            let second = if else_branch.len() == 0 {
                first
            } else {
                instructions_text(
                    first + padding + "} else {\n"@,
                    else_branch,
                    nested,
                    address_comments,
                )
            };
            second + padding + "}\n"@
        },
        InstModel::Loop { label, entry_offset, body } => body_text(
            label_text(out + padding, label) + "loop {\n"@,
            entry_offset,
            body,
            nested,
            address_comments,
        ).0 + padding + "}\n"@,
    }
}

pub open spec fn instructions_text(
    out: Seq<char>,
    list: Seq<InstModel>,
    padding: Seq<char>,
    address_comments: bool,
) -> Seq<char>
    decreases list,
{
    if list.len() == 0 {
        out
    } else {
        instruction_text(
            instructions_text(out, list.drop_last(), padding, address_comments),
            list[list.len() - 1],
            padding,
            address_comments,
        )
    }
}

/// The text after a body, and the address that was last given. An address is given
/// where it differs from the one before it.
pub open spec fn body_text(
    out: Seq<char>,
    entry_offset: usize,
    list: Seq<(usize, InstModel)>,
    padding: Seq<char>,
    address_comments: bool,
) -> (Seq<char>, usize)
    decreases list,
{
    if list.len() == 0 {
        (out, entry_offset)
    } else {
        let before = body_text(out, entry_offset, list.drop_last(), padding, address_comments);
        let offset = list[list.len() - 1].0;
        let noted = if address_comments && before.1 != offset {
            (before.0 + padding + "// 0x"@ + hex(offset as nat) + "\n"@, offset)
        } else {
            before
        };
        (
            instruction_text(noted.0, list[list.len() - 1].1, padding, address_comments),
            noted.1,
        )
    }
}

#[verifier::rlimit(60)]
fn instruction(out: &mut String, instr: &IRInst, padding: &String, address_comments: bool)
    ensures
        final(out)@ == instruction_text(old(out)@, instr.model(), padding@, address_comments),
    decreases instr,
{
    let mut nested = padding.clone();
    put(&mut nested, "    ");
    match instr {
        IRInst::Assign { dest, src } => {
            put(out, padding.as_str());
            expression(out, dest, 0);
            put(out, " = ");
            expression(out, src, 0);
            put(out, ";\n");
        },
        IRInst::Return(Some(value)) => {
            put(out, padding.as_str());
            put(out, "return ");
            expression(out, value, 0);
            put(out, ";\n");
        },
        IRInst::Return(None) => {
            put(out, padding.as_str());
            put(out, "return;\n");
        },
        IRInst::DeclareVariable { variable, ty } => {
            put(out, padding.as_str());
            put(out, "let ");
            variable_name(out, *variable);
            put(out, ": ");
            put_type(out, *ty);
            put(out, ";\n");
        },
        IRInst::AssignVariable { variable, value } => {
            put(out, padding.as_str());
            variable_name(out, *variable);
            put(out, " = ");
            expression(out, value, 0);
            put(out, ";\n");
        },
        IRInst::LoadVariable { variable, address } => {
            put(out, padding.as_str());
            variable_name(out, *variable);
            put(out, " = *(");
            expression(out, address, 0);
            put(out, ");\n");
        },
        IRInst::StoreVariable { address, variable } => {
            put(out, padding.as_str());
            put(out, "*(");
            expression(out, address, 0);
            put(out, ") = ");
            variable_name(out, *variable);
            put(out, ";\n");
        },
        IRInst::Break => {
            put(out, padding.as_str());
            put(out, "break;\n");
        },
        IRInst::Continue => {
            put(out, padding.as_str());
            put(out, "continue;\n");
        },
        IRInst::ContinueLoop(label) => {
            put(out, padding.as_str());
            put(out, "continue loop_");
            put_decimal(out, label.id as u128);
            put(out, ";\n");
        },
        IRInst::CallSynthetic { function, arguments } => {
            put(out, padding.as_str());
            put(out, "return ");
            function_name(out, *function);
            put(out, "(");
            put_arguments(out, arguments);
            put(out, ");\n");
        },
        IRInst::Jump(target) => {
            put(out, padding.as_str());
            put(out, "jump(");
            expression(out, target, 0);
            put(out, ");\n");
        },
        IRInst::End => {
            put(out, padding.as_str());
            put(out, "end();\n");
        },
        IRInst::If { condition, then_branch, else_branch } => {
            put(out, padding.as_str());
            put(out, "if (");
            expression(out, condition, 0);
            put(out, ") {\n");
            instructions(out, then_branch, &nested, address_comments);
            if else_branch.len() > 0 {
                put(out, padding.as_str());
                put(out, "} else {\n");
                instructions(out, else_branch, &nested, address_comments);
            }
            put(out, padding.as_str());
            put(out, "}\n");
        },
        IRInst::Loop { label, entry_offset, body } => {
            put(out, padding.as_str());
            put_label(out, label);
            put(out, "loop {\n");
            body_lines(out, *entry_offset, body, &nested, address_comments);
            put(out, padding.as_str());
            put(out, "}\n");
        },
    }
}

fn instructions(out: &mut String, list: &Vec<IRInst>, padding: &String, address_comments: bool)
    ensures
        final(out)@ == instructions_text(
            old(out)@,
            models(list@),
            padding@,
            address_comments,
        ),
    decreases list,
{
    let ghost all = models(list@);
    assert(all.subrange(0, 0) =~= Seq::empty());
    let mut i: usize = 0;
    while i < list.len()
        invariant
            i <= list@.len(),
            all == models(list@),
            out@ == instructions_text(
                old(out)@,
                all.subrange(0, i as int),
                padding@,
                address_comments,
            ),
        decreases list@.len() - i,
    {
        let ghost prefix = all.subrange(0, i + 1);
        assert(prefix.drop_last() =~= all.subrange(0, i as int));
        assert(decreases_to!(list => list@[i as int]));
        instruction(out, &list[i], padding, address_comments);
        i = i + 1;
    }
    assert(all.subrange(0, i as int) =~= all);
}

fn body_lines(
    out: &mut String,
    entry_offset: usize,
    list: &Vec<(usize, IRInst)>,
    padding: &String,
    address_comments: bool,
)
    ensures
        final(out)@ == body_text(
            old(out)@,
            entry_offset,
            body_models(list@),
            padding@,
            address_comments,
        ).0,
    decreases list,
{
    let ghost all = body_models(list@);
    let mut previous: usize = entry_offset;
    assert(all.subrange(0, 0) =~= Seq::empty());
    let mut i: usize = 0;
    while i < list.len()
        invariant
            i <= list@.len(),
            all == body_models(list@),
            (out@, previous) == body_text(
                old(out)@,
                entry_offset,
                all.subrange(0, i as int),
                padding@,
                address_comments,
            ),
        decreases list@.len() - i,
    {
        let ghost prefix = all.subrange(0, i + 1);
        assert(prefix.drop_last() =~= all.subrange(0, i as int));
        assert(prefix[i as int] == (list@[i as int].0, list@[i as int].1.model()));
        assert(decreases_to!(list => list@[i as int]));
        if address_comments && previous != list[i].0 {
            put(out, padding.as_str());
            put(out, "// 0x");
            put_hex(out, list[i].0 as u128);
            put(out, "\n");
            previous = list[i].0;
        }
        instruction(out, &list[i].1, padding, address_comments);
        i = i + 1;
    }
    assert(all.subrange(0, i as int) =~= all);
}

/// The text after a parameter.
pub open spec fn parameter_text(out: Seq<char>, parameter: Parameter) -> Seq<char> {
    match parameter {
        Parameter::Input { ordinal, size } => type_text(
            out + "arg"@ + decimal(ordinal as nat) + ": "@,
            VariableType::Unknown(Some(size)),
        ),
        Parameter::Value { variable, size } => type_text(
            variable_name_text(out, variable) + ": "@,
            VariableType::Unknown(Some(size)),
        ),
        Parameter::Native { ordinal, register } => register_name_text(
            out + "arg"@ + decimal(ordinal as nat) + ": Register<"@,
            register,
        ) + ">"@,
        Parameter::Slot { variable, register } => register_name_text(
            variable_name_text(out, variable) + ": Register<"@,
            register,
        ) + ">"@,
    }
}

fn put_parameter(out: &mut String, parameter: &Parameter)
    ensures
        final(out)@ == parameter_text(old(out)@, *parameter),
{
    match parameter {
        Parameter::Input { ordinal, size } => {
            put(out, "arg");
            put_decimal(out, *ordinal as u128);
            put(out, ": ");
            put_type(out, VariableType::Unknown(Some(*size)));
        },
        Parameter::Value { variable, size } => {
            variable_name(out, *variable);
            put(out, ": ");
            put_type(out, VariableType::Unknown(Some(*size)));
        },
        Parameter::Native { ordinal, register } => {
            put(out, "arg");
            put_decimal(out, *ordinal as u128);
            put(out, ": Register<");
            register_name(out, *register);
            put(out, ">");
        },
        Parameter::Slot { variable, register } => {
            variable_name(out, *variable);
            put(out, ": Register<");
            register_name(out, *register);
            put(out, ">");
        },
    }
}

/// The text after a list of parameters.
pub open spec fn parameters_text(out: Seq<char>, list: Seq<Parameter>) -> Seq<char>
    decreases list.len(),
{
    if list.len() == 0 {
        out
    } else {
        let listed = parameters_text(out, list.drop_last());
        let separated = if list.len() > 1 {
            listed + ", "@
        } else {
            listed
        };
        parameter_text(separated, list.last())
    }
}

fn put_parameters(out: &mut String, list: &Vec<Parameter>)
    ensures
        final(out)@ == parameters_text(old(out)@, list@),
{
    assert(list@.subrange(0, 0) =~= Seq::empty());
    let mut i: usize = 0;
    while i < list.len()
        invariant
            i <= list@.len(),
            out@ == parameters_text(old(out)@, list@.subrange(0, i as int)),
        decreases list@.len() - i,
    {
        let ghost prefix = list@.subrange(0, i + 1);
        assert(prefix.drop_last() =~= list@.subrange(0, i as int));
        if i > 0 {
            put(out, ", ");
        }
        put_parameter(out, &list[i]);
        i = i + 1;
    }
    assert(list@.subrange(0, i as int) =~= list@);
}

/// The text after a function.
pub open spec fn function_text(
    out: Seq<char>,
    index: usize,
    function: FunctionModel,
    address_comments: bool,
) -> Seq<char> {
    let headed = parameters_text(
        function_name_text(out + "\nfunction "@, SyntheticFunctionId { id: index }) + "("@,
        function.parameters,
    ) + ") {"@;
    let opened = if address_comments {
        headed + " // 0x"@ + hex(function.entry_offset as nat)
    } else {
        headed
    } + "\n"@;
    body_text(
        opened,
        function.entry_offset,
        function.body,
        "    "@,
        address_comments,
    ).0 + "}\n"@
}

fn put_function(
    out: &mut String,
    index: usize,
    function: &SyntheticFunction,
    address_comments: bool,
)
    ensures
        final(out)@ == function_text(old(out)@, index, function.model(), address_comments),
{
    put(out, "\nfunction ");
    function_name(out, SyntheticFunctionId { id: index });
    put(out, "(");
    put_parameters(out, &function.parameters);
    put(out, ") {");
    if address_comments {
        put(out, " // 0x");
        put_hex(out, function.entry_offset as u128);
    }
    put(out, "\n");
    let padding = owned("    ");
    body_lines(out, function.entry_offset, &function.body, &padding, address_comments);
    put(out, "}\n");
}

pub open spec fn functions_text(
    out: Seq<char>,
    functions: Seq<FunctionModel>,
    address_comments: bool,
) -> Seq<char>
    decreases functions.len(),
{
    if functions.len() == 0 {
        out
    } else {
        function_text(
            functions_text(out, functions.drop_last(), address_comments),
            (functions.len() - 1) as usize,
            functions.last(),
            address_comments,
        )
    }
}

/// The text of a program.
pub open spec fn program_text(program: ProgramModel, address_comments: bool) -> Seq<char> {
    functions_text(
        match program.entry {
            Some(entry) => function_name_text("// entry: "@, entry) + "\n"@,
            None => "// entry: none\n"@,
        },
        program.functions,
        address_comments,
    )
}

/// Render the complete tier 3 program, optionally including source address comments.
pub fn render(program: &Program, address_comments: bool) -> (res: String)
    ensures
        res@ == program_text(program.model(), address_comments),
{
    let mut output: String = match program.entry {
        Some(entry) => {
            let mut output = owned("// entry: ");
            function_name(&mut output, entry);
            put(&mut output, "\n");
            output
        },
        None => owned("// entry: none\n"),
    };
    let ghost start = output@;
    let ghost all = function_models(program.functions@);
    assert(all.subrange(0, 0) =~= Seq::empty());
    let mut index: usize = 0;
    while index < program.functions.len()
        invariant
            index <= program.functions@.len(),
            all == function_models(program.functions@),
            output@ == functions_text(start, all.subrange(0, index as int), address_comments),
        decreases program.functions@.len() - index,
    {
        let ghost prefix = all.subrange(0, index + 1);
        assert(prefix.drop_last() =~= all.subrange(0, index as int));
        put_function(&mut output, index, &program.functions[index], address_comments);
        index = index + 1;
    }
    assert(all.subrange(0, index as int) =~= all);
    output
}

} // verus!
