//! The debug form of tier 6 expressions, for analysis reports.
use super::ir::{DataId, IRBinOpKind, IRExpr, IntegerType, VariableId};
use crate::text::{decimal, put, put_decimal};
use vstd::prelude::*;

verus! {

pub open spec fn bool_text(out: Seq<char>, b: bool) -> Seq<char> {
    out + if b {
        "true"@
    } else {
        "false"@
    }
}

pub fn put_bool(out: &mut String, b: bool)
    ensures
        final(out)@ == bool_text(old(out)@, b),
{
    put(
        out,
        if b {
            "true"
        } else {
            "false"
        },
    );
}

pub open spec fn size_text(out: Seq<char>, size: Option<usize>) -> Seq<char> {
    match size {
        Some(size) => out + "Some("@ + decimal(size as nat) + ")"@,
        None => out + "None"@,
    }
}

fn put_size(out: &mut String, size: Option<usize>)
    ensures
        final(out)@ == size_text(old(out)@, size),
{
    match size {
        Some(size) => {
            put(out, "Some(");
            put_decimal(out, size as u128);
            put(out, ")");
        },
        None => {
            put(out, "None");
        },
    }
}

pub open spec fn variable_text(out: Seq<char>, v: VariableId) -> Seq<char> {
    out + "VariableId { owner: SyntheticFunctionId { id: "@ + decimal(v.owner.id as nat)
        + " }, id: "@ + decimal(v.id as nat) + " }"@
}

fn put_variable(out: &mut String, v: VariableId)
    ensures
        final(out)@ == variable_text(old(out)@, v),
{
    put(out, "VariableId { owner: SyntheticFunctionId { id: ");
    put_decimal(out, v.owner.id as u128);
    put(out, " }, id: ");
    put_decimal(out, v.id as u128);
    put(out, " }");
}

pub open spec fn data_text(out: Seq<char>, d: DataId) -> Seq<char> {
    out + "DataId { id: "@ + decimal(d.id as nat) + " }"@
}

fn put_data(out: &mut String, d: DataId)
    ensures
        final(out)@ == data_text(old(out)@, d),
{
    put(out, "DataId { id: ");
    put_decimal(out, d.id as u128);
    put(out, " }");
}

pub open spec fn integer_text(out: Seq<char>, t: IntegerType) -> Seq<char> {
    bool_text(
        out + "IntegerType { size: "@ + decimal(t.size as nat) + ", signed: "@,
        t.signed,
    ) + " }"@
}

fn put_integer(out: &mut String, t: IntegerType)
    ensures
        final(out)@ == integer_text(old(out)@, t),
{
    put(out, "IntegerType { size: ");
    put_decimal(out, t.size as u128);
    put(out, ", signed: ");
    put_bool(out, t.signed);
    put(out, " }");
}

/// The text after the name of an operation.
pub open spec fn kind_text(out: Seq<char>, k: IRBinOpKind) -> Seq<char> {
    out + match k {
        IRBinOpKind::Add => "Add"@,
        IRBinOpKind::Sub => "Sub"@,
        IRBinOpKind::Mul => "Mul"@,
        IRBinOpKind::UnsignedMod => "UnsignedMod"@,
        IRBinOpKind::Shl => "Shl"@,
        IRBinOpKind::Shr => "Shr"@,
        IRBinOpKind::BitOr => "BitOr"@,
        IRBinOpKind::And => "And"@,
        IRBinOpKind::LogicalAnd => "LogicalAnd"@,
        IRBinOpKind::Or => "Or"@,
        IRBinOpKind::Eq => "Eq"@,
        IRBinOpKind::SignedGt => "SignedGt"@,
        IRBinOpKind::SignedLe => "SignedLe"@,
        IRBinOpKind::Ne => "Ne"@,
        IRBinOpKind::UnsignedLt => "UnsignedLt"@,
        IRBinOpKind::UnsignedGe => "UnsignedGe"@,
    }
}

pub fn put_kind(out: &mut String, k: IRBinOpKind)
    ensures
        final(out)@ == kind_text(old(out)@, k),
{
    put(
        out,
        match k {
            IRBinOpKind::Add => "Add",
            IRBinOpKind::Sub => "Sub",
            IRBinOpKind::Mul => "Mul",
            IRBinOpKind::UnsignedMod => "UnsignedMod",
            IRBinOpKind::Shl => "Shl",
            IRBinOpKind::Shr => "Shr",
            IRBinOpKind::BitOr => "BitOr",
            IRBinOpKind::And => "And",
            IRBinOpKind::LogicalAnd => "LogicalAnd",
            IRBinOpKind::Or => "Or",
            IRBinOpKind::Eq => "Eq",
            IRBinOpKind::SignedGt => "SignedGt",
            IRBinOpKind::SignedLe => "SignedLe",
            IRBinOpKind::Ne => "Ne",
            IRBinOpKind::UnsignedLt => "UnsignedLt",
            IRBinOpKind::UnsignedGe => "UnsignedGe",
        },
    );
}

/// The text after the debug form of an expression.
pub open spec fn expression_text(out: Seq<char>, e: IRExpr) -> Seq<char>
    decreases e,
{
    match e {
        IRExpr::BinOp { kind, lhs, rhs } => {
            let out0 = kind_text(out + "BinOp { kind: "@, kind);
            let out1 = expression_text(out0 + ", lhs: "@, *lhs);
            let out2 = expression_text(out1 + ", rhs: "@, *rhs);
            out2 + " }"@
        },
        IRExpr::Deref(address) => expression_text(out + "Deref("@, *address) + ")"@,
        IRExpr::CStringLength(base) => expression_text(out + "CStringLength("@, *base) + ")"@,
        IRExpr::MemoryAddress { address, size } => {
            let out0 = expression_text(out + "MemoryAddress { address: "@, *address);
            let out1 = size_text(out0 + ", size: "@, size);
            out1 + " }"@
        },
        IRExpr::ElementAddress { base, index, element_size } => {
            let out0 = expression_text(out + "ElementAddress { base: "@, *base);
            let out1 = expression_text(out0 + ", index: "@, *index);
            let out2 = out1 + ", element_size: "@ + decimal(element_size as nat);
            out2 + " }"@
        },
        IRExpr::Argument(ordinal) => out + "Argument("@ + decimal(ordinal as nat) + ")"@,
        IRExpr::Convert { value, source, target } => {
            let out0 = expression_text(out + "Convert { value: "@, *value);
            let out1 = integer_text(out0 + ", source: "@, source);
            let out2 = integer_text(out1 + ", target: "@, target);
            out2 + " }"@
        },
        IRExpr::CU8(value) => out + "CU8("@ + decimal(value as nat) + ")"@,
        IRExpr::CU32(value) => out + "CU32("@ + decimal(value as nat) + ")"@,
        IRExpr::CU64(value) => out + "CU64("@ + decimal(value as nat) + ")"@,
        IRExpr::Variable(variable) => variable_text(out + "Variable("@, variable) + ")"@,
        IRExpr::Data(id) => data_text(out + "Data("@, id) + ")"@,
        IRExpr::Bool(value) => bool_text(out + "Bool("@, value) + ")"@,
        IRExpr::Not(inner) => expression_text(out + "Not("@, *inner) + ")"@,
    }
}

pub fn put_expression(out: &mut String, e: &IRExpr)
    ensures
        final(out)@ == expression_text(old(out)@, *e),
    decreases e,
{
    match e {
        IRExpr::BinOp { kind, lhs, rhs } => {
            put(out, "BinOp { kind: ");
            put_kind(out, *kind);
            put(out, ", lhs: ");
            put_expression(out, lhs);
            put(out, ", rhs: ");
            put_expression(out, rhs);
            put(out, " }");
        },
        IRExpr::Deref(address) => {
            put(out, "Deref(");
            put_expression(out, address);
            put(out, ")");
        },
        IRExpr::CStringLength(base) => {
            put(out, "CStringLength(");
            put_expression(out, base);
            put(out, ")");
        },
        IRExpr::MemoryAddress { address, size } => {
            put(out, "MemoryAddress { address: ");
            put_expression(out, address);
            put(out, ", size: ");
            put_size(out, *size);
            put(out, " }");
        },
        IRExpr::ElementAddress { base, index, element_size } => {
            put(out, "ElementAddress { base: ");
            put_expression(out, base);
            put(out, ", index: ");
            put_expression(out, index);
            put(out, ", element_size: ");
            put_decimal(out, *element_size as u128);
            put(out, " }");
        },
        IRExpr::Argument(ordinal) => {
            put(out, "Argument(");
            put_decimal(out, *ordinal as u128);
            put(out, ")");
        },
        IRExpr::Convert { value, source, target } => {
            put(out, "Convert { value: ");
            put_expression(out, value);
            put(out, ", source: ");
            put_integer(out, *source);
            put(out, ", target: ");
            put_integer(out, *target);
            put(out, " }");
        },
        IRExpr::CU8(value) => {
            put(out, "CU8(");
            put_decimal(out, *value as u128);
            put(out, ")");
        },
        IRExpr::CU32(value) => {
            put(out, "CU32(");
            put_decimal(out, *value as u128);
            put(out, ")");
        },
        IRExpr::CU64(value) => {
            put(out, "CU64(");
            put_decimal(out, *value as u128);
            put(out, ")");
        },
        IRExpr::Variable(variable) => {
            put(out, "Variable(");
            put_variable(out, *variable);
            put(out, ")");
        },
        IRExpr::Data(id) => {
            put(out, "Data(");
            put_data(out, *id);
            put(out, ")");
        },
        IRExpr::Bool(value) => {
            put(out, "Bool(");
            put_bool(out, *value);
            put(out, ")");
        },
        IRExpr::Not(inner) => {
            put(out, "Not(");
            put_expression(out, inner);
            put(out, ")");
        },
    }
}

} // verus!
