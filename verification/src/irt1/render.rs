//! A readable, TypeScript-like view of tier 1 for manual debugging.
use super::ir::{
    body_models, function_models, FlagSet, FunctionModel, IRBinOpKind, IRExpr, IRInst, InstModel,
    NativeFlag, Parameter, Program, ProgramModel, SyntheticFunction, SyntheticFunctionId,
    VariableId, VariableType,
};
use crate::text::{decimal, hex, owned, put, put_decimal, put_hex};
use crate::x86::{register_text, Register};
use vstd::prelude::*;

verus! {

/// The text after the name of a function.
pub open spec fn function_name_text(out: Seq<char>, id: SyntheticFunctionId) -> Seq<char> {
    out + "fn_"@ + decimal(id.id as nat)
}

fn function_name(out: &mut String, id: SyntheticFunctionId)
    ensures
        final(out)@ == function_name_text(old(out)@, id),
{
    put(out, "fn_");
    put_decimal(out, id.id as u128);
}

/// The text after the name of a variable.
pub open spec fn variable_name_text(out: Seq<char>, id: VariableId) -> Seq<char> {
    out + "v"@ + decimal(id.id as nat)
}

fn variable_name(out: &mut String, id: VariableId)
    ensures
        final(out)@ == variable_name_text(old(out)@, id),
{
    put(out, "v");
    put_decimal(out, id.id as u128);
}

/// The text after the name of a register.
pub open spec fn register_name_text(out: Seq<char>, register: Register) -> Seq<char> {
    out + register_text(register.number)
}

fn register_name(out: &mut String, register: Register)
    ensures
        final(out)@ == register_name_text(old(out)@, register),
{
    let name: String = register.name();
    put(out, name.as_str());
}

pub open spec fn truth_text(value: bool) -> Seq<char> {
    if value {
        "true"@
    } else {
        "false"@
    }
}

pub open spec fn flag_name(flag: NativeFlag) -> Seq<char> {
    match flag {
        NativeFlag::Carry => "Carry"@,
        NativeFlag::Parity => "Parity"@,
        NativeFlag::AuxCarry => "AuxCarry"@,
        NativeFlag::Zero => "Zero"@,
        NativeFlag::Sign => "Sign"@,
        NativeFlag::Trap => "Trap"@,
        NativeFlag::InterruptEnable => "InterruptEnable"@,
        NativeFlag::Direction => "Direction"@,
        NativeFlag::Overflow => "Overflow"@,
    }
}

fn name_of_flag(flag: NativeFlag) -> (res: &'static str)
    ensures
        res@ == flag_name(flag),
{
    match flag {
        NativeFlag::Carry => "Carry",
        NativeFlag::Parity => "Parity",
        NativeFlag::AuxCarry => "AuxCarry",
        NativeFlag::Zero => "Zero",
        NativeFlag::Sign => "Sign",
        NativeFlag::Trap => "Trap",
        NativeFlag::InterruptEnable => "InterruptEnable",
        NativeFlag::Direction => "Direction",
        NativeFlag::Overflow => "Overflow",
    }
}

/// A list of flags so far, and whether it holds one.
pub open spec fn with_flag(listed: (Seq<char>, bool), flags: FlagSet, flag: NativeFlag) -> (
    Seq<char>,
    bool,
) {
    if flags.has(flag) {
        let separated = if listed.1 {
            listed.0 + ", "@
        } else {
            listed.0
        };
        (separated + "\""@ + flag_name(flag) + "\""@, true)
    } else {
        listed
    }
}

fn put_flag(out: &mut String, some: bool, flags: FlagSet, flag: NativeFlag) -> (res: bool)
    ensures
        (final(out)@, res) == with_flag((old(out)@, some), flags, flag),
{
    if flags.contains(flag) {
        if some {
            put(out, ", ");
        }
        put(out, "\"");
        put(out, name_of_flag(flag));
        put(out, "\"");
        true
    } else {
        some
    }
}

/// The text after the names of flags, in the order of the names.
pub open spec fn flags_text(out: Seq<char>, flags: FlagSet) -> Seq<char> {
    let f0 = with_flag((out, false), flags, NativeFlag::AuxCarry);
    let f1 = with_flag(f0, flags, NativeFlag::Carry);
    let f2 = with_flag(f1, flags, NativeFlag::Direction);
    let f3 = with_flag(f2, flags, NativeFlag::InterruptEnable);
    let f4 = with_flag(f3, flags, NativeFlag::Overflow);
    let f5 = with_flag(f4, flags, NativeFlag::Parity);
    let f6 = with_flag(f5, flags, NativeFlag::Sign);
    let f7 = with_flag(f6, flags, NativeFlag::Trap);
    let f8 = with_flag(f7, flags, NativeFlag::Zero);
    f8.0
}

fn put_flags(out: &mut String, flags: FlagSet)
    ensures
        final(out)@ == flags_text(old(out)@, flags),
{
    let f0: bool = put_flag(out, false, flags, NativeFlag::AuxCarry);
    let f1: bool = put_flag(out, f0, flags, NativeFlag::Carry);
    let f2: bool = put_flag(out, f1, flags, NativeFlag::Direction);
    let f3: bool = put_flag(out, f2, flags, NativeFlag::InterruptEnable);
    let f4: bool = put_flag(out, f3, flags, NativeFlag::Overflow);
    let f5: bool = put_flag(out, f4, flags, NativeFlag::Parity);
    let f6: bool = put_flag(out, f5, flags, NativeFlag::Sign);
    let f7: bool = put_flag(out, f6, flags, NativeFlag::Trap);
    let _f8: bool = put_flag(out, f7, flags, NativeFlag::Zero);
}

/// The text after an offset from the entry stack pointer.
pub open spec fn offset_text(out: Seq<char>, offset: i64) -> Seq<char> {
    if offset < 0 {
        out + "-0x"@ + hex((-offset) as nat)
    } else {
        out + "0x"@ + hex(offset as nat)
    }
}

fn put_offset(out: &mut String, offset: i64)
    ensures
        final(out)@ == offset_text(old(out)@, offset),
{
    if offset < 0 {
        put(out, "-0x");
        put_hex(out, (-(offset as i128)) as u128);
    } else {
        put(out, "0x");
        put_hex(out, offset as u128);
    }
}

/// How tightly an expression binds. The levels follow TypeScript operators, so an
/// expression keeps its grouping when printed.
pub open spec fn binding(expr: IRExpr) -> int {
    match expr {
        IRExpr::BinOp { kind, .. } => match kind {
            IRBinOpKind::Add => 5,
            IRBinOpKind::Sub => 5,
            IRBinOpKind::Mul => 5,
            IRBinOpKind::Shl => 4,
            IRBinOpKind::Shr => 4,
            IRBinOpKind::And => 2,
            IRBinOpKind::Or => 1,
            IRBinOpKind::Eq => 3,
            IRBinOpKind::SignedGt => 7,
            IRBinOpKind::UnsignedLt => 7,
        },
        IRExpr::Not(_) => 6,
        _ => 7,
    }
}

fn precedence(expr: &IRExpr) -> (res: u8)
    ensures
        res == binding(*expr),
{
    match expr {
        IRExpr::BinOp { kind, .. } => match *kind {
            IRBinOpKind::Add => 5,
            IRBinOpKind::Sub => 5,
            IRBinOpKind::Mul => 5,
            IRBinOpKind::Shl => 4,
            IRBinOpKind::Shr => 4,
            IRBinOpKind::And => 2,
            IRBinOpKind::Or => 1,
            IRBinOpKind::Eq => 3,
            IRBinOpKind::SignedGt => 7,
            IRBinOpKind::UnsignedLt => 7,
        },
        IRExpr::Not(_) => 6,
        _ => 7,
    }
}

/// The operator of an operation that is written between its operands.
pub open spec fn operator_text(kind: IRBinOpKind) -> Seq<char> {
    match kind {
        IRBinOpKind::Add => "+"@,
        IRBinOpKind::Sub => "-"@,
        IRBinOpKind::Mul => "*"@,
        IRBinOpKind::Shl => "<<"@,
        IRBinOpKind::Shr => ">>>"@,
        IRBinOpKind::And => "&"@,
        IRBinOpKind::Or => "||"@,
        IRBinOpKind::Eq => "==="@,
        IRBinOpKind::SignedGt => ">"@,
        IRBinOpKind::UnsignedLt => ""@,
    }
}

fn binary_operator(kind: IRBinOpKind) -> (res: &'static str)
    ensures
        res@ == operator_text(kind),
{
    match kind {
        IRBinOpKind::Add => "+",
        IRBinOpKind::Sub => "-",
        IRBinOpKind::Mul => "*",
        IRBinOpKind::Shl => "<<",
        IRBinOpKind::Shr => ">>>",
        IRBinOpKind::And => "&",
        IRBinOpKind::Or => "||",
        IRBinOpKind::Eq => "===",
        IRBinOpKind::SignedGt => ">",
        IRBinOpKind::UnsignedLt => "",
    }
}

/// The text after an operand; a nested operation is always in parentheses.
pub open spec fn operand_text(out: Seq<char>, expr: IRExpr, parent: int) -> Seq<char>
    decreases expr, 2nat,
{
    if expr is BinOp {
        shown(out + "("@, expr, 0) + ")"@
    } else {
        shown(out, expr, parent)
    }
}

/// The text after an expression without parentheses of its own.
pub open spec fn bare_text(out: Seq<char>, expr: IRExpr) -> Seq<char>
    decreases expr, 0nat,
{
    let own = binding(expr);
    match expr {
        IRExpr::BinOp { kind, lhs, rhs } => if kind == IRBinOpKind::UnsignedLt {
            operand_text(operand_text(out + "unsignedLt("@, *lhs, 0) + ", "@, *rhs, 0) + ")"@
        } else {
            operand_text(
                operand_text(out, *lhs, own) + " "@ + operator_text(kind) + " "@,
                *rhs,
                own + 1,
            )
        },
        IRExpr::Deref { address, size } => shown(
            out + "load<"@ + decimal(size as nat) + ">("@,
            *address,
            0,
        ) + ")"@,
        IRExpr::ExtractBytes { value, offset, size } => shown(
            out + "extractBytes<"@ + decimal(offset as nat) + ", "@ + decimal(size as nat) + ">("@,
            *value,
            0,
        ) + ")"@,
        IRExpr::ZeroExtend { value, size } => shown(
            out + "zeroExtend<"@ + decimal(size as nat) + ">("@,
            *value,
            0,
        ) + ")"@,
        IRExpr::SignExtend { value, size } => shown(
            out + "signExtend<"@ + decimal(size as nat) + ">("@,
            *value,
            0,
        ) + ")"@,
        IRExpr::Reg(register) => register_name_text(out, register),
        IRExpr::Flag(flag) => out + "flags."@ + flag_name(flag),
        IRExpr::Stack { offset, size } => offset_text(
            out + "stack<"@ + decimal(size as nat) + ">("@,
            offset,
        ) + ")"@,
        IRExpr::CU8(value) => out + "0x"@ + hex(value as nat),
        IRExpr::CU32(value) => out + "0x"@ + hex(value as nat),
        IRExpr::CU64(value) => out + "0x"@ + hex(value as nat),
        IRExpr::Variable(variable) => variable_name_text(out, variable),
        IRExpr::Bool(value) => out + truth_text(value),
        IRExpr::Not(inner) => operand_text(out + "!"@, *inner, own),
    }
}

/// The text after an expression, in parentheses where it binds less tightly than
/// `parent`.
pub open spec fn shown(out: Seq<char>, expr: IRExpr, parent: int) -> Seq<char>
    decreases expr, 1nat,
{
    if binding(expr) < parent {
        bare_text(out + "("@, expr) + ")"@
    } else {
        bare_text(out, expr)
    }
}

fn binary_operand(out: &mut String, expr: &IRExpr, parent: u8)
    ensures
        final(out)@ == operand_text(old(out)@, *expr, parent as int),
    decreases expr, 2nat,
{
    if matches!(expr, IRExpr::BinOp { .. }) {
        put(out, "(");
        expression(out, expr, 0);
        put(out, ")");
    } else {
        expression(out, expr, parent);
    }
}

fn bare(out: &mut String, expr: &IRExpr)
    ensures
        final(out)@ == bare_text(old(out)@, *expr),
    decreases expr, 0nat,
{
    let own: u8 = precedence(expr);
    match expr {
        IRExpr::BinOp { kind, lhs, rhs } => {
            if *kind == IRBinOpKind::UnsignedLt {
                put(out, "unsignedLt(");
                binary_operand(out, lhs, 0);
                put(out, ", ");
                binary_operand(out, rhs, 0);
                put(out, ")");
            } else {
                binary_operand(out, lhs, own);
                put(out, " ");
                put(out, binary_operator(*kind));
                put(out, " ");
                binary_operand(out, rhs, own + 1);
            }
        },
        IRExpr::Deref { address, size } => {
            put(out, "load<");
            put_decimal(out, *size as u128);
            put(out, ">(");
            expression(out, address, 0);
            put(out, ")");
        },
        IRExpr::ExtractBytes { value, offset, size } => {
            put(out, "extractBytes<");
            put_decimal(out, *offset as u128);
            put(out, ", ");
            put_decimal(out, *size as u128);
            put(out, ">(");
            expression(out, value, 0);
            put(out, ")");
        },
        IRExpr::ZeroExtend { value, size } => {
            put(out, "zeroExtend<");
            put_decimal(out, *size as u128);
            put(out, ">(");
            expression(out, value, 0);
            put(out, ")");
        },
        IRExpr::SignExtend { value, size } => {
            put(out, "signExtend<");
            put_decimal(out, *size as u128);
            put(out, ">(");
            expression(out, value, 0);
            put(out, ")");
        },
        IRExpr::Reg(register) => {
            register_name(out, *register);
        },
        IRExpr::Flag(flag) => {
            put(out, "flags.");
            put(out, name_of_flag(*flag));
        },
        IRExpr::Stack { offset, size } => {
            put(out, "stack<");
            put_decimal(out, *size as u128);
            put(out, ">(");
            put_offset(out, *offset);
            put(out, ")");
        },
        IRExpr::CU8(value) => {
            put(out, "0x");
            put_hex(out, *value as u128);
        },
        IRExpr::CU32(value) => {
            put(out, "0x");
            put_hex(out, *value as u128);
        },
        IRExpr::CU64(value) => {
            put(out, "0x");
            put_hex(out, *value as u128);
        },
        IRExpr::Variable(variable) => {
            variable_name(out, *variable);
        },
        IRExpr::Bool(value) => {
            put(
                out,
                if *value {
                    "true"
                } else {
                    "false"
                },
            );
        },
        IRExpr::Not(inner) => {
            put(out, "!");
            binary_operand(out, inner, own);
        },
    }
}

fn expression(out: &mut String, expr: &IRExpr, parent: u8)
    ensures
        final(out)@ == shown(old(out)@, *expr, parent as int),
    decreases expr, 1nat,
{
    if precedence(expr) < parent {
        put(out, "(");
        bare(out, expr);
        put(out, ")");
    } else {
        bare(out, expr);
    }
}

/// The text after a list of arguments.
pub open spec fn arguments_text(out: Seq<char>, list: Seq<IRExpr>) -> Seq<char>
    decreases list.len(),
{
    if list.len() == 0 {
        out
    } else {
        let listed = arguments_text(out, list.drop_last());
        let separated = if list.len() > 1 {
            listed + ", "@
        } else {
            listed
        };
        shown(separated, list.last(), 0)
    }
}

fn put_arguments(out: &mut String, list: &Vec<IRExpr>)
    ensures
        final(out)@ == arguments_text(old(out)@, list@),
{
    assert(list@.subrange(0, 0) =~= Seq::empty());
    let mut i: usize = 0;
    while i < list.len()
        invariant
            i <= list@.len(),
            out@ == arguments_text(old(out)@, list@.subrange(0, i as int)),
        decreases list@.len() - i,
    {
        let ghost prefix = list@.subrange(0, i + 1);
        assert(prefix.drop_last() =~= list@.subrange(0, i as int));
        if i > 0 {
            put(out, ", ");
        }
        expression(out, &list[i], 0);
        i = i + 1;
    }
    assert(list@.subrange(0, i as int) =~= list@);
}

/// The text after an instruction, on lines that begin with `padding`.
pub open spec fn instruction_text(out: Seq<char>, instr: InstModel, padding: Seq<char>) -> Seq<char>
    decreases instr,
{
    let nested = padding + "    "@;
    match instr {
        InstModel::Assign { dest, src } => shown(
            shown(out + padding, dest, 0) + " = "@,
            src,
            0,
        ) + ";\n"@,
        InstModel::SetFlagsFrom { flags, expr } => shown(
            flags_text(out + padding + "setFlagsFrom(["@, flags) + "], "@,
            expr,
            0,
        ) + ");\n"@,
        InstModel::ClearFlags { flags } => flags_text(
            out + padding + "clearFlags(["@,
            flags,
        ) + "]);\n"@,
        InstModel::InvalidateFlags { flags } => flags_text(
            out + padding + "invalidateFlags(["@,
            flags,
        ) + "]);\n"@,
        InstModel::Return(Some(value)) => shown(out + padding + "return "@, value, 0) + ";\n"@,
        InstModel::Return(None) => out + padding + "return;\n"@,
        InstModel::DeclareVariable {
            variable,
            ty: VariableType::Bool,
        } => variable_name_text(out + padding + "let "@, variable) + ": boolean;\n"@,
        InstModel::AssignVariable { variable, value } => shown(
            variable_name_text(out + padding, variable) + " = "@,
            value,
            0,
        ) + ";\n"@,
        InstModel::CallSynthetic { function, arguments } => arguments_text(
            function_name_text(out + padding + "return "@, function) + "("@,
            arguments,
        ) + ");\n"@,
        InstModel::Jump(target) => shown(out + padding + "jump("@, target, 0) + ");\n"@,
        InstModel::End => out + padding + "end();\n"@,
        InstModel::If { condition, then_branch, else_branch } => {
            let opened = shown(out + padding + "if ("@, condition, 0) + ") {\n"@;
            let first = instruction_text(opened, *then_branch, nested) + padding + "} else {\n"@;
            instruction_text(first, *else_branch, nested) + padding + "}\n"@
        },
    }
}

#[verifier::rlimit(60)]
fn instruction(out: &mut String, instr: &IRInst, padding: &String)
    ensures
        final(out)@ == instruction_text(old(out)@, instr.model(), padding@),
    decreases instr,
{
    match instr {
        IRInst::Assign { dest, src } => {
            put(out, padding.as_str());
            expression(out, dest, 0);
            put(out, " = ");
            expression(out, src, 0);
            put(out, ";\n");
        },
        IRInst::SetFlagsFrom { flags, expr } => {
            put(out, padding.as_str());
            put(out, "setFlagsFrom([");
            put_flags(out, *flags);
            put(out, "], ");
            expression(out, expr, 0);
            put(out, ");\n");
        },
        IRInst::ClearFlags { flags } => {
            put(out, padding.as_str());
            put(out, "clearFlags([");
            put_flags(out, *flags);
            put(out, "]);\n");
        },
        IRInst::InvalidateFlags { flags } => {
            put(out, padding.as_str());
            put(out, "invalidateFlags([");
            put_flags(out, *flags);
            put(out, "]);\n");
        },
        IRInst::Return(Some(value)) => {
            put(out, padding.as_str());
            put(out, "return ");
            expression(out, value, 0);
            put(out, ";\n");
        },
        IRInst::Return(None) => {
            put(out, padding.as_str());
            put(out, "return;\n");
        },
        IRInst::DeclareVariable { variable, ty: VariableType::Bool } => {
            put(out, padding.as_str());
            put(out, "let ");
            variable_name(out, *variable);
            put(out, ": boolean;\n");
        },
        IRInst::AssignVariable { variable, value } => {
            put(out, padding.as_str());
            variable_name(out, *variable);
            put(out, " = ");
            expression(out, value, 0);
            put(out, ";\n");
        },
        IRInst::CallSynthetic { function, arguments } => {
            put(out, padding.as_str());
            put(out, "return ");
            function_name(out, *function);
            put(out, "(");
            put_arguments(out, arguments);
            put(out, ");\n");
        },
        IRInst::Jump(target) => {
            put(out, padding.as_str());
            put(out, "jump(");
            expression(out, target, 0);
            put(out, ");\n");
        },
        IRInst::End => {
            put(out, padding.as_str());
            put(out, "end();\n");
        },
        IRInst::If { condition, then_branch, else_branch } => {
            let mut nested = padding.clone();
            put(&mut nested, "    ");
            put(out, padding.as_str());
            put(out, "if (");
            expression(out, condition, 0);
            put(out, ") {\n");
            instruction(out, then_branch, &nested);
            put(out, padding.as_str());
            put(out, "} else {\n");
            instruction(out, else_branch, &nested);
            put(out, padding.as_str());
            put(out, "}\n");
        },
    }
}

/// The text after a body, and the address that was last given. An address is given
/// where it differs from the one before it.
pub open spec fn body_text(
    out: Seq<char>,
    entry_offset: usize,
    body: Seq<(usize, InstModel)>,
    address_comments: bool,
) -> (Seq<char>, usize)
    decreases body.len(),
{
    if body.len() == 0 {
        (out, entry_offset)
    } else {
        let before = body_text(out, entry_offset, body.drop_last(), address_comments);
        let offset = body.last().0;
        let noted = if address_comments && before.1 != offset {
            (before.0 + "    // 0x"@ + hex(offset as nat) + "\n"@, offset)
        } else {
            before
        };
        (instruction_text(noted.0, body.last().1, "    "@), noted.1)
    }
}

fn body_lines(
    out: &mut String,
    entry_offset: usize,
    body: &Vec<(usize, IRInst)>,
    address_comments: bool,
)
    ensures
        final(out)@ == body_text(
            old(out)@,
            entry_offset,
            body_models(body@),
            address_comments,
        ).0,
{
    let ghost all = body_models(body@);
    let padding = owned("    ");
    let mut previous: usize = entry_offset;
    assert(all.subrange(0, 0) =~= Seq::empty());
    let mut i: usize = 0;
    while i < body.len()
        invariant
            i <= body@.len(),
            all == body_models(body@),
            padding@ == "    "@,
            (out@, previous) == body_text(
                old(out)@,
                entry_offset,
                all.subrange(0, i as int),
                address_comments,
            ),
        decreases body@.len() - i,
    {
        let ghost prefix = all.subrange(0, i + 1);
        assert(prefix.drop_last() =~= all.subrange(0, i as int));
        assert(prefix.last() == (body@[i as int].0, body@[i as int].1.model()));
        if address_comments && previous != body[i].0 {
            put(out, "    // 0x");
            put_hex(out, body[i].0 as u128);
            put(out, "\n");
            previous = body[i].0;
        }
        instruction(out, &body[i].1, &padding);
        i = i + 1;
    }
    assert(all.subrange(0, i as int) =~= all);
}

/// The text after a parameter.
pub open spec fn parameter_text(out: Seq<char>, parameter: Parameter) -> Seq<char> {
    match parameter {
        Parameter::Register(register) => register_name_text(out, register),
        Parameter::Stack { offset, size } => offset_text(
            out + "stack<"@ + decimal(size as nat) + ">("@,
            offset,
        ) + ")"@,
    }
}

fn put_parameter(out: &mut String, parameter: &Parameter)
    ensures
        final(out)@ == parameter_text(old(out)@, *parameter),
{
    match parameter {
        Parameter::Register(register) => {
            register_name(out, *register);
        },
        Parameter::Stack { offset, size } => {
            put(out, "stack<");
            put_decimal(out, *size as u128);
            put(out, ">(");
            put_offset(out, *offset);
            put(out, ")");
        },
    }
}

/// The text after a list of parameters.
pub open spec fn parameters_text(out: Seq<char>, list: Seq<Parameter>) -> Seq<char>
    decreases list.len(),
{
    if list.len() == 0 {
        out
    } else {
        let listed = parameters_text(out, list.drop_last());
        let separated = if list.len() > 1 {
            listed + ", "@
        } else {
            listed
        };
        parameter_text(separated, list.last())
    }
}

fn put_parameters(out: &mut String, list: &Vec<Parameter>)
    ensures
        final(out)@ == parameters_text(old(out)@, list@),
{
    assert(list@.subrange(0, 0) =~= Seq::empty());
    let mut i: usize = 0;
    while i < list.len()
        invariant
            i <= list@.len(),
            out@ == parameters_text(old(out)@, list@.subrange(0, i as int)),
        decreases list@.len() - i,
    {
        let ghost prefix = list@.subrange(0, i + 1);
        assert(prefix.drop_last() =~= list@.subrange(0, i as int));
        if i > 0 {
            put(out, ", ");
        }
        put_parameter(out, &list[i]);
        i = i + 1;
    }
    assert(list@.subrange(0, i as int) =~= list@);
}

/// The text after a function.
pub open spec fn function_text(
    out: Seq<char>,
    index: usize,
    function: FunctionModel,
    address_comments: bool,
) -> Seq<char> {
    let headed = parameters_text(
        function_name_text(out + "\nfunction "@, SyntheticFunctionId { id: index }) + "("@,
        function.parameters,
    ) + ") {"@;
    let opened = if address_comments {
        headed + " // 0x"@ + hex(function.entry_offset as nat)
    } else {
        headed
    } + "\n"@;
    let noted = if function.external_flags == FlagSet::none() {
        opened
    } else {
        flags_text(opened + "    // external flags: ["@, function.external_flags) + "]\n"@
    };
    body_text(noted, function.entry_offset, function.body, address_comments).0 + "}\n"@
}

fn put_function(
    out: &mut String,
    index: usize,
    function: &SyntheticFunction,
    address_comments: bool,
)
    ensures
        final(out)@ == function_text(old(out)@, index, function.model(), address_comments),
{
    put(out, "\nfunction ");
    function_name(out, SyntheticFunctionId { id: index });
    put(out, "(");
    put_parameters(out, &function.parameters);
    put(out, ") {");
    if address_comments {
        put(out, " // 0x");
        put_hex(out, function.entry_offset as u128);
    }
    put(out, "\n");
    if !function.external_flags.is_empty() {
        put(out, "    // external flags: [");
        put_flags(out, function.external_flags);
        put(out, "]\n");
    }
    body_lines(out, function.entry_offset, &function.body, address_comments);
    put(out, "}\n");
}

pub open spec fn functions_text(
    out: Seq<char>,
    functions: Seq<FunctionModel>,
    address_comments: bool,
) -> Seq<char>
    decreases functions.len(),
{
    if functions.len() == 0 {
        out
    } else {
        function_text(
            functions_text(out, functions.drop_last(), address_comments),
            (functions.len() - 1) as usize,
            functions.last(),
            address_comments,
        )
    }
}

/// The text of a program.
pub open spec fn program_text(program: ProgramModel, address_comments: bool) -> Seq<char> {
    functions_text(
        match program.entry {
            Some(entry) => function_name_text("// entry: "@, entry) + "\n"@,
            None => "// entry: none\n"@,
        },
        program.functions,
        address_comments,
    )
}

/// Render the complete tier 1 program, optionally including source address comments.
pub fn render(program: &Program, address_comments: bool) -> (res: String)
    ensures
        res@ == program_text(program.model(), address_comments),
{
    let mut output: String = match program.entry {
        Some(entry) => {
            let mut output = owned("// entry: ");
            function_name(&mut output, entry);
            put(&mut output, "\n");
            output
        },
        None => owned("// entry: none\n"),
    };
    let ghost start = output@;
    let ghost all = function_models(program.functions@);
    assert(all.subrange(0, 0) =~= Seq::empty());
    let mut index: usize = 0;
    while index < program.functions.len()
        invariant
            index <= program.functions@.len(),
            all == function_models(program.functions@),
            output@ == functions_text(start, all.subrange(0, index as int), address_comments),
        decreases program.functions@.len() - index,
    {
        let ghost prefix = all.subrange(0, index + 1);
        assert(prefix.drop_last() =~= all.subrange(0, index as int));
        put_function(&mut output, index, &program.functions[index], address_comments);
        index = index + 1;
    }
    assert(all.subrange(0, index as int) =~= all);
    output
}

} // verus!
