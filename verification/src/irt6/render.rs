//! A readable view of tier 6 for manual debugging.
use super::arithmetic::{context_of, type_of, Context, ContextModel};
use super::ir::{
    body_models, field_address, field_of, function_models, models,
    struct_models, FunctionModel, IRBinOpKind, IRExpr, IRInst, InstModel, IntegerType,
    LoopCondition, Parameter, Program, ProgramModel, StructDefinition, StructField, StructModel,
    SyntheticFunction, SyntheticFunctionId, VariableId, VariableType,
};
use crate::text::{decimal, hex, owned, put, put_decimal, put_hex};
use vstd::prelude::*;

verus! {

/// The types that decide how addresses are shown.
pub struct TypesModel {
    pub context: ContextModel,
    pub structs: Seq<StructModel>,
}

struct RenderTypes<'a> {
    context: Context,
    structs: &'a Vec<StructDefinition>,
}

impl<'a> RenderTypes<'a> {
    spec fn model(self) -> TypesModel {
        TypesModel { context: self.context@, structs: struct_models(self.structs@) }
    }
}

/// The integer type of a conversion, a literal or an integer slot.
pub open spec fn integer_type_of(types: TypesModel, expr: IRExpr) -> Option<IntegerType> {
    match expr {
        IRExpr::Convert { target, .. } => Some(target),
        IRExpr::CU8(_) => Some(IntegerType { size: 1, signed: false }),
        IRExpr::CU32(_) => Some(IntegerType { size: 4, signed: false }),
        IRExpr::CU64(_) => Some(IntegerType { size: 8, signed: false }),
        _ => match type_of(types.context, expr) {
            Some(VariableType::Integer(bits)) => Some(
                IntegerType { size: (bits / 8) as usize, signed: true },
            ),
            Some(VariableType::UnsignedInteger(bits)) => Some(
                IntegerType { size: (bits / 8) as usize, signed: false },
            ),
            _ => None,
        },
    }
}

/// Whether the expression is known to be an integer, so that it can be added to
/// a pointer.
pub open spec fn is_integer_offset(types: TypesModel, expr: IRExpr) -> bool
    decreases expr,
{
    match type_of(types.context, expr) {
        Some(VariableType::Integer(_)) => true,
        Some(VariableType::UnsignedInteger(_)) => true,
        _ => match expr {
            IRExpr::CU8(_) | IRExpr::CU32(_) | IRExpr::CU64(_) => true,
            IRExpr::Convert { .. } => true,
            IRExpr::BinOp { kind, lhs, rhs } => match kind {
                IRBinOpKind::Add
                | IRBinOpKind::Sub
                | IRBinOpKind::UnsignedMod
                | IRBinOpKind::Shl => is_integer_offset(types, *lhs) && is_integer_offset(
                    types,
                    *rhs,
                ),
                _ => false,
            },
            _ => false,
        },
    }
}

/// Whether the expression is a pointer, or a pointer plus an integer.
pub open spec fn is_pointer_address(types: TypesModel, expr: IRExpr) -> bool
    decreases expr,
{
    match type_of(types.context, expr) {
        Some(VariableType::UnknownPointer) => true,
        Some(VariableType::Pointer(_)) => true,
        Some(VariableType::Vector(_)) => true,
        _ => match expr {
            IRExpr::BinOp { kind: IRBinOpKind::Add, lhs, rhs } => (is_pointer_address(types, *lhs)
                && is_integer_offset(types, *rhs)) || (is_integer_offset(types, *lhs)
                && is_pointer_address(types, *rhs)),
            _ => false,
        },
    }
}

pub open spec fn has_field(fields: Seq<StructField>, offset: usize) -> bool {
    exists|i: int| 0 <= i < fields.len() && (#[trigger] fields[i]).offset == offset
}

/// The slot and the offset of an address that names a field of a known struct.
pub open spec fn struct_field_of(types: TypesModel, address: IRExpr) -> Option<(IRExpr, usize)> {
    match field_of(address) {
        Some((base, offset)) => match type_of(types.context, base) {
            Some(VariableType::Pointer(pointee)) => match *pointee {
                VariableType::Struct(id) => if id.id < types.structs.len() && has_field(
                    types.structs[id.id as int].fields,
                    offset,
                ) {
                    Some((base, offset))
                } else {
                    None
                },
                _ => None,
            },
            _ => None,
        },
        None => None,
    }
}

fn fields_contain(fields: &Vec<StructField>, offset: usize) -> (res: bool)
    ensures
        res == has_field(fields@, offset),
{
    let mut i: usize = 0;
    while i < fields.len()
        invariant
            i <= fields@.len(),
            forall|k: int| 0 <= k < i ==> (#[trigger] fields@[k]).offset != offset,
        decreases fields@.len() - i,
    {
        if fields[i].offset == offset {
            return true;
        }
        i = i + 1;
    }
    false
}

impl<'a> RenderTypes<'a> {
    fn from_function(function: &SyntheticFunction, structs: &'a Vec<StructDefinition>) -> (res:
        Self)
        ensures
            res.model() == (TypesModel {
                context: context_of(function.model()),
                structs: struct_models(structs@),
            }),
    {
        RenderTypes { context: Context::from_function(function), structs }
    }

    fn integer_type(&self, expr: &IRExpr) -> (res: Option<IntegerType>)
        ensures
            res == integer_type_of(self.model(), *expr),
    {
        match expr {
            IRExpr::Convert { target, .. } => Some(*target),
            IRExpr::CU8(_) => Some(IntegerType { size: 1, signed: false }),
            IRExpr::CU32(_) => Some(IntegerType { size: 4, signed: false }),
            IRExpr::CU64(_) => Some(IntegerType { size: 8, signed: false }),
            _ => match self.context.direct_type(expr) {
                Some(VariableType::Integer(bits)) => Some(
                    IntegerType { size: *bits / 8, signed: true },
                ),
                Some(VariableType::UnsignedInteger(bits)) => Some(
                    IntegerType { size: *bits / 8, signed: false },
                ),
                _ => None,
            },
        }
    }

    fn integer_offset(&self, expr: &IRExpr) -> (res: bool)
        ensures
            res == is_integer_offset(self.model(), *expr),
        decreases expr,
    {
        match self.context.direct_type(expr) {
            Some(VariableType::Integer(_)) => {
                return true;
            },
            Some(VariableType::UnsignedInteger(_)) => {
                return true;
            },
            _ => {},
        }
        match expr {
            IRExpr::CU8(_) | IRExpr::CU32(_) | IRExpr::CU64(_) => true,
            IRExpr::Convert { .. } => true,
            IRExpr::BinOp { kind, lhs, rhs } => match kind {
                IRBinOpKind::Add
                | IRBinOpKind::Sub
                | IRBinOpKind::UnsignedMod
                | IRBinOpKind::Shl => self.integer_offset(lhs) && self.integer_offset(rhs),
                _ => false,
            },
            _ => false,
        }
    }

    fn pointer_address(&self, expr: &IRExpr) -> (res: bool)
        ensures
            res == is_pointer_address(self.model(), *expr),
        decreases expr,
    {
        match self.context.direct_type(expr) {
            Some(VariableType::UnknownPointer) => {
                return true;
            },
            Some(VariableType::Pointer(_)) => {
                return true;
            },
            Some(VariableType::Vector(_)) => {
                return true;
            },
            _ => {},
        }
        match expr {
            IRExpr::BinOp { kind, lhs, rhs } => *kind == IRBinOpKind::Add && ((
            self.pointer_address(lhs) && self.integer_offset(rhs)) || (self.integer_offset(lhs)
                && self.pointer_address(rhs))),
            _ => false,
        }
    }

    fn struct_field<'b>(&self, address: &'b IRExpr) -> (res: Option<(&'b IRExpr, usize)>)
        ensures
            match res {
                Some((base, offset)) => struct_field_of(self.model(), *address) == Some(
                    (*base, offset),
                ),
                None => struct_field_of(self.model(), *address) is None,
            },
    {
        let (base, offset): (&IRExpr, usize) = match field_address(address) {
            Some(parts) => parts,
            None => return None,
        };
        match self.context.direct_type(base) {
            Some(VariableType::Pointer(pointee)) => match &**pointee {
                VariableType::Struct(id) => {
                    if id.id >= self.structs.len() {
                        return None;
                    }
                    let fields = &self.structs[id.id].fields;
                    assert(struct_models(self.structs@)[id.id as int].fields == fields@);
                    if fields_contain(fields, offset) {
                        Some((base, offset))
                    } else {
                        None
                    }
                },
                _ => None,
            },
            _ => None,
        }
    }
}

// ---------------------------------------------------------------------------
// Names

/// The text after a function's name.
pub open spec fn function_name_text(out: Seq<char>, id: SyntheticFunctionId) -> Seq<char> {
    out + "fn_"@ + decimal(id.id as nat)
}

fn function_name(out: &mut String, id: SyntheticFunctionId)
    ensures
        final(out)@ == function_name_text(old(out)@, id),
{
    put(out, "fn_");
    put_decimal(out, id.id as u128);
}

/// The text after a variable's name.
pub open spec fn variable_name_text(out: Seq<char>, id: VariableId) -> Seq<char> {
    out + "v"@ + decimal(id.id as nat)
}

fn variable_name(out: &mut String, id: VariableId)
    ensures
        final(out)@ == variable_name_text(old(out)@, id),
{
    put(out, "v");
    put_decimal(out, id.id as u128);
}

/// The text after the name of a type.
pub open spec fn type_text(out: Seq<char>, ty: VariableType, structs: Seq<StructModel>) -> Seq<
    char,
>
    decreases ty,
{
    match ty {
        VariableType::Unknown(Some(size)) => out + "Unknown"@ + decimal(size as nat),
        VariableType::Unknown(None) => out + "Unknown"@,
        VariableType::UnknownPointer => out + "Unknown*"@,
        VariableType::Pointer(pointee) => type_text(out, *pointee, structs) + "*"@,
        VariableType::Vector(element) => type_text(out + "vec<"@, *element, structs) + ">"@,
        VariableType::CString => out + "cstring"@,
        VariableType::Struct(id) => if id.id < structs.len() {
            out + structs[id.id as int].name
        } else {
            out + "AStruct"@ + decimal(id.id as nat)
        },
        VariableType::Bool => out + "Bool"@,
        VariableType::Integer(bits) => out + "i"@ + decimal(bits as nat),
        VariableType::UnsignedInteger(bits) => out + "u"@ + decimal(bits as nat),
    }
}

fn name_of_type(out: &mut String, ty: &VariableType, structs: &Vec<StructDefinition>)
    ensures
        final(out)@ == type_text(old(out)@, *ty, struct_models(structs@)),
    decreases ty,
{
    match ty {
        VariableType::Unknown(size) => {
            put(out, "Unknown");
            if let Some(size) = size {
                put_decimal(out, *size as u128);
            }
        },
        VariableType::UnknownPointer => {
            put(out, "Unknown*");
        },
        VariableType::Pointer(pointee) => {
            name_of_type(out, pointee, structs);
            put(out, "*");
        },
        VariableType::Vector(element) => {
            put(out, "vec<");
            name_of_type(out, element, structs);
            put(out, ">");
        },
        VariableType::CString => {
            put(out, "cstring");
        },
        VariableType::Struct(id) => {
            if id.id < structs.len() {
                assert(struct_models(structs@)[id.id as int].name == structs@[id.id as int].name@);
                put(out, structs[id.id].name.as_str());
            } else {
                put(out, "AStruct");
                put_decimal(out, id.id as u128);
            }
        },
        VariableType::Bool => {
            put(out, "Bool");
        },
        VariableType::Integer(bits) => {
            put(out, "i");
            put_decimal(out, *bits as u128);
        },
        VariableType::UnsignedInteger(bits) => {
            put(out, "u");
            put_decimal(out, *bits as u128);
        },
    }
}

// ---------------------------------------------------------------------------
// Expressions

/// Higher numbers bind more tightly. Unsigned comparisons use the relational
/// level, so an expression keeps its IR grouping when printed.
pub open spec fn binding(expr: IRExpr) -> int {
    match expr {
        IRExpr::BinOp { kind, .. } => match kind {
            IRBinOpKind::Or => 1,
            IRBinOpKind::LogicalAnd => 2,
            IRBinOpKind::And | IRBinOpKind::BitOr => 3,
            IRBinOpKind::Eq | IRBinOpKind::Ne => 4,
            IRBinOpKind::SignedGt
            | IRBinOpKind::SignedLe
            | IRBinOpKind::UnsignedLt
            | IRBinOpKind::UnsignedGe => 5,
            IRBinOpKind::Shl | IRBinOpKind::Shr => 6,
            IRBinOpKind::Mul | IRBinOpKind::UnsignedMod => 8,
            IRBinOpKind::Add | IRBinOpKind::Sub => 7,
        },
        IRExpr::Not(_) => 9,
        IRExpr::Deref(_) => 9,
        IRExpr::MemoryAddress { .. } => 9,
        IRExpr::ElementAddress { .. } => 9,
        _ => 10,
    }
}

fn precedence(expr: &IRExpr) -> (res: u8)
    ensures
        res == binding(*expr),
{
    match expr {
        IRExpr::BinOp { kind, .. } => match kind {
            IRBinOpKind::Or => 1,
            IRBinOpKind::LogicalAnd => 2,
            IRBinOpKind::And | IRBinOpKind::BitOr => 3,
            IRBinOpKind::Eq | IRBinOpKind::Ne => 4,
            IRBinOpKind::SignedGt
            | IRBinOpKind::SignedLe
            | IRBinOpKind::UnsignedLt
            | IRBinOpKind::UnsignedGe => 5,
            IRBinOpKind::Shl | IRBinOpKind::Shr => 6,
            IRBinOpKind::Mul | IRBinOpKind::UnsignedMod => 8,
            IRBinOpKind::Add | IRBinOpKind::Sub => 7,
        },
        IRExpr::Not(_) => 9,
        IRExpr::Deref(_) => 9,
        IRExpr::MemoryAddress { .. } => 9,
        IRExpr::ElementAddress { .. } => 9,
        _ => 10,
    }
}

pub open spec fn operator_text(kind: IRBinOpKind) -> Seq<char> {
    match kind {
        IRBinOpKind::Add => "+"@,
        IRBinOpKind::Sub => "-"@,
        IRBinOpKind::Mul => "*"@,
        IRBinOpKind::UnsignedMod => "u%"@,
        IRBinOpKind::Shl => "<<"@,
        IRBinOpKind::Shr => ">>>"@,
        IRBinOpKind::BitOr => "|"@,
        IRBinOpKind::And => "&"@,
        IRBinOpKind::LogicalAnd => "&&"@,
        IRBinOpKind::Or => "||"@,
        IRBinOpKind::Eq => "==="@,
        IRBinOpKind::SignedGt => ">"@,
        IRBinOpKind::SignedLe => "<="@,
        IRBinOpKind::Ne => "!=="@,
        IRBinOpKind::UnsignedLt => "u<"@,
        IRBinOpKind::UnsignedGe => "u>="@,
    }
}

pub fn binary_operator(kind: IRBinOpKind) -> (res: &'static str)
    ensures
        res@ == operator_text(kind),
{
    match kind {
        IRBinOpKind::Add => "+",
        IRBinOpKind::Sub => "-",
        IRBinOpKind::Mul => "*",
        IRBinOpKind::UnsignedMod => "u%",
        IRBinOpKind::Shl => "<<",
        IRBinOpKind::Shr => ">>>",
        IRBinOpKind::BitOr => "|",
        IRBinOpKind::And => "&",
        IRBinOpKind::LogicalAnd => "&&",
        IRBinOpKind::Or => "||",
        IRBinOpKind::Eq => "===",
        IRBinOpKind::SignedGt => ">",
        IRBinOpKind::SignedLe => "<=",
        IRBinOpKind::Ne => "!==",
        IRBinOpKind::UnsignedLt => "u<",
        IRBinOpKind::UnsignedGe => "u>=",
    }
}

/// Whether a widening conversion of an index shows nothing that its operand's
/// own type does not.
pub open spec fn is_plain_widening(types: TypesModel, index: IRExpr) -> bool {
    match index {
        IRExpr::Convert { value, source, target } => !source.signed && !target.signed
            && target.size >= source.size && integer_type_of(types, *value) == Some(source),
        _ => false,
    }
}

/// The text after an element: its base, and its index in brackets.
pub open spec fn element_text(out: Seq<char>, address: IRExpr, types: TypesModel) -> Seq<char>
    decreases address, 1nat,
{
    match address {
        IRExpr::ElementAddress { base, index, .. } => {
            let based = shown(out, *base, 10, types) + "["@;
            match *index {
                IRExpr::Convert { value, .. } => if is_plain_widening(types, *index) {
                    shown(based, *value, 0, types) + "]"@
                } else {
                    shown(based, *index, 0, types) + "]"@
                },
                _ => shown(based, *index, 0, types) + "]"@,
            }
        },
        _ => out,
    }
}

/// The text after what an address points at.
pub open spec fn pointee_text(out: Seq<char>, address: IRExpr, types: TypesModel) -> Seq<char>
    decreases address, 4nat,
{
    if address is ElementAddress {
        element_text(out, address, types)
    } else {
        match struct_field_of(types, address) {
            Some((base, offset)) => slot_text(out, base) + "->_0x"@ + hex(offset as nat),
            None => shown(out + "*("@, address, 0, types) + ")"@,
        }
    }
}

/// The text after an argument or a variable.
pub open spec fn slot_text(out: Seq<char>, slot: IRExpr) -> Seq<char> {
    match slot {
        IRExpr::Argument(ordinal) => out + "arg"@ + decimal(ordinal as nat),
        IRExpr::Variable(variable) => variable_name_text(out, variable),
        _ => out,
    }
}

/// The text after an operand; a nested operation is always in parentheses.
pub open spec fn operand_text(out: Seq<char>, expr: IRExpr, parent: int, types: TypesModel) -> Seq<
    char,
>
    decreases expr, 4nat,
{
    if expr is BinOp {
        shown(out + "("@, expr, 0, types) + ")"@
    } else {
        shown(out, expr, parent, types)
    }
}

/// The text after an expression without parentheses of its own.
pub open spec fn bare_text(out: Seq<char>, expr: IRExpr, types: TypesModel) -> Seq<char>
    decreases expr, 2nat,
{
    let own = binding(expr);
    match expr {
        IRExpr::BinOp { kind, lhs, rhs } => operand_text(
            operand_text(out, *lhs, own, types) + " "@ + operator_text(kind) + " "@,
            *rhs,
            own + 1,
            types,
        ),
        IRExpr::Deref(address) => pointee_text(out, *address, types),
        IRExpr::CStringLength(base) => shown(out + "strlen("@, *base, 0, types) + ")"@,
        IRExpr::ElementAddress { .. } => element_text(out + "&"@, expr, types),
        IRExpr::MemoryAddress { address, .. } => shown(out + "(Unknown*)("@, *address, 0, types)
            + ")"@,
        IRExpr::Argument(_) => slot_text(out, expr),
        IRExpr::Convert { value, source, target } => if integer_type_of(types, *value) == Some(
            source,
        ) || target.size <= source.size {
            shown(out + target.name_text() + "("@, *value, 0, types) + ")"@
        } else {
            shown(
                out + target.name_text() + "("@ + source.name_text() + "("@,
                *value,
                0,
                types,
            ) + "))"@
        },
        IRExpr::CU8(value) => out + "0x"@ + hex(value as nat),
        IRExpr::CU32(value) => out + "0x"@ + hex(value as nat),
        IRExpr::CU64(value) => out + "0x"@ + hex(value as nat),
        IRExpr::Variable(_) => slot_text(out, expr),
        IRExpr::Data(id) => out + "data_0x"@ + hex(id.id as nat),
        IRExpr::Bool(value) => out + if value {
            "true"@
        } else {
            "false"@
        },
        IRExpr::Not(inner) => operand_text(out + "!"@, *inner, own, types),
    }
}

/// The text after an expression under a parent that binds as tightly as
/// `parent`.
pub open spec fn shown(out: Seq<char>, expr: IRExpr, parent: int, types: TypesModel) -> Seq<char>
    decreases expr, 3nat,
{
    match expr {
        // MemoryAddress carries the access width; a pointer-typed address needs
        // no cast in the output.
        IRExpr::MemoryAddress { address, .. } if is_pointer_address(types, *address) => shown(
            out,
            *address,
            parent,
            types,
        ),
        _ => if binding(expr) < parent {
            bare_text(out + "("@, expr, types) + ")"@
        } else {
            bare_text(out, expr, types)
        },
    }
}

fn element(out: &mut String, address: &IRExpr, types: &RenderTypes)
    ensures
        final(out)@ == element_text(old(out)@, *address, types.model()),
    decreases address, 1nat,
{
    if let IRExpr::ElementAddress { base, index, .. } = address {
        expression(out, base, 10, types);
        put(out, "[");
        match &**index {
            IRExpr::Convert { value, source, target } => {
                if !source.signed && !target.signed && target.size >= source.size
                    && types.integer_type(value) == Some(*source) {
                    expression(out, value, 0, types);
                } else {
                    expression(out, index, 0, types);
                }
            },
            _ => {
                expression(out, index, 0, types);
            },
        }
        put(out, "]");
    }
}

fn slot(out: &mut String, expr: &IRExpr)
    ensures
        final(out)@ == slot_text(old(out)@, *expr),
{
    match expr {
        IRExpr::Argument(ordinal) => {
            put(out, "arg");
            put_decimal(out, *ordinal as u128);
        },
        IRExpr::Variable(variable) => {
            variable_name(out, *variable);
        },
        _ => {},
    }
}

fn dereference(out: &mut String, address: &IRExpr, types: &RenderTypes)
    ensures
        final(out)@ == pointee_text(old(out)@, *address, types.model()),
    decreases address, 4nat,
{
    if matches!(address, IRExpr::ElementAddress { .. }) {
        element(out, address, types);
    } else {
        match types.struct_field(address) {
            Some((base, offset)) => {
                slot(out, base);
                put(out, "->_0x");
                put_hex(out, offset as u128);
            },
            None => {
                put(out, "*(");
                expression(out, address, 0, types);
                put(out, ")");
            },
        }
    }
}

fn binary_operand(out: &mut String, expr: &IRExpr, parent_precedence: u8, types: &RenderTypes)
    ensures
        final(out)@ == operand_text(old(out)@, *expr, parent_precedence as int, types.model()),
    decreases expr, 4nat,
{
    if matches!(expr, IRExpr::BinOp { .. }) {
        put(out, "(");
        expression(out, expr, 0, types);
        put(out, ")");
    } else {
        expression(out, expr, parent_precedence, types);
    }
}

fn bare_expression(out: &mut String, expr: &IRExpr, types: &RenderTypes)
    ensures
        final(out)@ == bare_text(old(out)@, *expr, types.model()),
    decreases expr, 2nat,
{
    let own_precedence: u8 = precedence(expr);
    match expr {
        IRExpr::BinOp { kind, lhs, rhs } => {
            binary_operand(out, lhs, own_precedence, types);
            put(out, " ");
            put(out, binary_operator(*kind));
            put(out, " ");
            binary_operand(out, rhs, own_precedence + 1, types);
        },
        IRExpr::Deref(address) => {
            dereference(out, address, types);
        },
        IRExpr::CStringLength(base) => {
            put(out, "strlen(");
            expression(out, base, 0, types);
            put(out, ")");
        },
        IRExpr::ElementAddress { .. } => {
            put(out, "&");
            element(out, expr, types);
        },
        IRExpr::MemoryAddress { address, .. } => {
            put(out, "(Unknown*)(");
            expression(out, address, 0, types);
            put(out, ")");
        },
        IRExpr::Argument(_) => {
            slot(out, expr);
        },
        IRExpr::Convert { value, source, target } => {
            put(out, target.name().as_str());
            put(out, "(");
            if types.integer_type(value) == Some(*source) || target.size <= source.size {
                expression(out, value, 0, types);
                put(out, ")");
            } else {
                put(out, source.name().as_str());
                put(out, "(");
                expression(out, value, 0, types);
                put(out, "))");
            }
        },
        IRExpr::CU8(value) => {
            put(out, "0x");
            put_hex(out, *value as u128);
        },
        IRExpr::CU32(value) => {
            put(out, "0x");
            put_hex(out, *value as u128);
        },
        IRExpr::CU64(value) => {
            put(out, "0x");
            put_hex(out, *value as u128);
        },
        IRExpr::Variable(_) => {
            slot(out, expr);
        },
        IRExpr::Data(id) => {
            put(out, "data_0x");
            put_hex(out, id.id as u128);
        },
        IRExpr::Bool(value) => {
            put(
                out,
                if *value {
                    "true"
                } else {
                    "false"
                },
            );
        },
        IRExpr::Not(inner) => {
            put(out, "!");
            binary_operand(out, inner, own_precedence, types);
        },
    }
}

fn expression(out: &mut String, expr: &IRExpr, parent_precedence: u8, types: &RenderTypes)
    ensures
        final(out)@ == shown(old(out)@, *expr, parent_precedence as int, types.model()),
    decreases expr, 3nat,
{
    if let IRExpr::MemoryAddress { address, .. } = expr {
        if types.pointer_address(address) {
            expression(out, address, parent_precedence, types);
            return;
        }
    }
    if precedence(expr) < parent_precedence {
        put(out, "(");
        bare_expression(out, expr, types);
        put(out, ")");
    } else {
        bare_expression(out, expr, types);
    }
}

/// The text after a list of arguments.
pub open spec fn arguments_text(out: Seq<char>, arguments: Seq<IRExpr>, types: TypesModel) -> Seq<
    char,
>
    decreases arguments.len(),
{
    if arguments.len() == 0 {
        out
    } else {
        let listed = arguments_text(out, arguments.drop_last(), types);
        let separated = if arguments.len() > 1 {
            listed + ", "@
        } else {
            listed
        };
        shown(separated, arguments.last(), 0, types)
    }
}

fn put_arguments(out: &mut String, arguments: &Vec<IRExpr>, types: &RenderTypes)
    ensures
        final(out)@ == arguments_text(old(out)@, arguments@, types.model()),
{
    let mut i: usize = 0;
    assert(arguments@.subrange(0, 0) =~= Seq::<IRExpr>::empty());
    while i < arguments.len()
        invariant
            i <= arguments@.len(),
            out@ == arguments_text(
                old(out)@,
                arguments@.subrange(0, i as int),
                types.model(),
            ),
        decreases arguments@.len() - i,
    {
        let ghost prefix = arguments@.subrange(0, i + 1);
        assert(prefix.drop_last() =~= arguments@.subrange(0, i as int));
        if i > 0 {
            put(out, ", ");
        }
        expression(out, &arguments[i], 0, types);
        i = i + 1;
    }
    assert(arguments@.subrange(0, i as int) =~= arguments@);
}

// ---------------------------------------------------------------------------
// Instructions

/// The text after a comment that gives an address.
pub open spec fn address_text(out: Seq<char>, padding: Seq<char>, offset: usize) -> Seq<char> {
    out + padding + "// 0x"@ + hex(offset as nat) + "\n"@
}

fn put_address(out: &mut String, padding: &String, offset: usize)
    ensures
        final(out)@ == address_text(old(out)@, padding@, offset),
{
    put(out, padding.as_str());
    put(out, "// 0x");
    put_hex(out, offset as u128);
    put(out, "\n");
}

/// The text after an instruction, on lines that begin with `padding`.
pub open spec fn instruction_text(
    out: Seq<char>,
    instr: InstModel,
    padding: Seq<char>,
    types: TypesModel,
    address_comments: bool,
) -> Seq<char>
    decreases instr,
{
    let nested = padding + "    "@;
    match instr {
        InstModel::Assign { dest, src } => shown(
            shown(out + padding, dest, 0, types) + " = "@,
            src,
            0,
            types,
        ) + ";\n"@,
        InstModel::CompoundAssign { dest, kind, value } => shown(
            shown(out + padding, dest, 0, types) + " "@ + operator_text(kind) + "= "@,
            value,
            0,
            types,
        ) + ";\n"@,
        InstModel::Return(Some(value)) => shown(out + padding + "return "@, value, 0, types)
            + ";\n"@,
        InstModel::Return(None) => out + padding + "return;\n"@,
        InstModel::DeclareVariable { variable, ty } => type_text(
            variable_name_text(out + padding + "let "@, variable) + ": "@,
            ty,
            types.structs,
        ) + ";\n"@,
        InstModel::DeclareAndAssignVariable { variable, ty, value } => shown(
            type_text(
                variable_name_text(out + padding + "let "@, variable) + ": "@,
                ty,
                types.structs,
            ) + " = "@,
            value,
            0,
            types,
        ) + ";\n"@,
        InstModel::AssignVariable { variable, value } => shown(
            variable_name_text(out + padding, variable) + " = "@,
            value,
            0,
            types,
        ) + ";\n"@,
        InstModel::LoadVariable { variable, address } => pointee_text(
            variable_name_text(out + padding, variable) + " = "@,
            address,
            types,
        ) + ";\n"@,
        InstModel::StoreVariable { address, variable } => variable_name_text(
            pointee_text(out + padding, address, types) + " = "@,
            variable,
        ) + ";\n"@,
        InstModel::If { condition, then_branch, else_branch } => {
            let opened = shown(out + padding + "if ("@, condition, 0, types) + ") {\n"@;
            let first = instructions_text(opened, then_branch, nested, types, address_comments);
            let second = if else_branch.len() > 0 {
                instructions_text(
                    first + padding + "} else {\n"@,
                    else_branch,
                    nested,
                    types,
                    address_comments,
                )
            } else {
                first
            };
            second + padding + "}\n"@
        },
        InstModel::While { label, entry_offset, condition, body } => {
            let opened = match condition {
                LoopCondition::Before { offset, expression } => {
                    let noted = if address_comments && offset != entry_offset {
                        address_text(out, padding, offset)
                    } else {
                        out
                    };
                    shown(
                        label_text(noted + padding, label) + "while ("@,
                        expression,
                        0,
                        types,
                    ) + ") {\n"@
                },
                LoopCondition::After { .. } => label_text(out + padding, label) + "do {\n"@,
            };
            let inner = body_text(opened, entry_offset, body, nested, types, address_comments);
            match condition {
                LoopCondition::Before { .. } => inner.0 + padding + "}\n"@,
                LoopCondition::After { offset, expression } => {
                    let noted = if address_comments && inner.1 != offset {
                        address_text(inner.0, nested, offset)
                    } else {
                        inner.0
                    };
                    shown(noted + padding + "} while ("@, expression, 0, types) + ");\n"@
                },
            }
        },
        InstModel::ForEach {
            entry_offset,
            condition_offset,
            advance_offset,
            load_offset,
            variable,
            element_type,
            vector,
            start,
            index_bits,
            body,
        } => {
            let entered = if address_comments {
                address_text(out, padding, entry_offset) + padding + "// u"@ + decimal(
                    index_bits as nat,
                ) + " index wraps; advance 0x"@ + hex(advance_offset as nat) + ", load 0x"@ + hex(
                    load_offset as nat,
                ) + "\n"@
            } else {
                out
            };
            let noted = if address_comments && condition_offset != entry_offset {
                address_text(entered, padding, condition_offset)
            } else {
                entered
            };
            let named = type_text(
                variable_name_text(noted + padding + "for "@, variable) + ": "@,
                element_type,
                types.structs,
            ) + " in "@;
            let opened = shown(named, vector, 10, types) + "["@ + decimal(start as nat)
                + "..] {\n"@;
            body_text(opened, entry_offset, body, nested, types, address_comments).0 + padding
                + "}\n"@
        },
        InstModel::Continue => out + padding + "continue;\n"@,
        InstModel::ContinueLoop(label) => out + padding + "continue loop_"@ + decimal(
            label.id as nat,
        ) + ";\n"@,
        InstModel::Break => out + padding + "break;\n"@,
        InstModel::CallSynthetic { function, arguments } => arguments_text(
            function_name_text(out + padding + "return "@, function) + "("@,
            arguments,
            types,
        ) + ");\n"@,
        InstModel::Jump(target) => shown(out + padding + "jump("@, target, 0, types) + ");\n"@,
        InstModel::End => out + padding + "end();\n"@,
    }
}

/// The text after a loop's label.
pub open spec fn label_text(out: Seq<char>, label: Option<super::ir::LoopId>) -> Seq<char> {
    match label {
        Some(label) => out + "loop_"@ + decimal(label.id as nat) + ": "@,
        None => out,
    }
}

pub open spec fn instructions_text(
    out: Seq<char>,
    instructions: Seq<InstModel>,
    padding: Seq<char>,
    types: TypesModel,
    address_comments: bool,
) -> Seq<char>
    decreases instructions,
{
    if instructions.len() == 0 {
        out
    } else {
        instruction_text(
            instructions_text(out, instructions.drop_last(), padding, types, address_comments),
            instructions[instructions.len() - 1],
            padding,
            types,
            address_comments,
        )
    }
}

/// The text after a body, and the address that was last given. An address is
/// given where it differs from the one before it.
pub open spec fn body_text(
    out: Seq<char>,
    entry_offset: usize,
    body: Seq<(usize, InstModel)>,
    padding: Seq<char>,
    types: TypesModel,
    address_comments: bool,
) -> (Seq<char>, usize)
    decreases body,
{
    if body.len() == 0 {
        (out, entry_offset)
    } else {
        let before = body_text(
            out,
            entry_offset,
            body.drop_last(),
            padding,
            types,
            address_comments,
        );
        let offset = body[body.len() - 1].0;
        let noted = if address_comments && before.1 != offset {
            (address_text(before.0, padding, offset), offset)
        } else {
            before
        };
        (
            instruction_text(
                noted.0,
                body[body.len() - 1].1,
                padding,
                types,
                address_comments,
            ),
            noted.1,
        )
    }
}

fn put_label(out: &mut String, label: &Option<super::ir::LoopId>)
    ensures
        final(out)@ == label_text(old(out)@, *label),
{
    if let Some(label) = label {
        put(out, "loop_");
        put_decimal(out, label.id as u128);
        put(out, ": ");
    }
}

#[verifier::rlimit(60)]
fn instruction(
    out: &mut String,
    instr: &IRInst,
    padding: &String,
    types: &RenderTypes,
    address_comments: bool,
)
    ensures
        final(out)@ == instruction_text(
            old(out)@,
            instr.model(),
            padding@,
            types.model(),
            address_comments,
        ),
    decreases instr,
{
    let mut nested = padding.clone();
    put(&mut nested, "    ");
    match instr {
        IRInst::Assign { dest, src } => {
            put(out, padding.as_str());
            expression(out, dest, 0, types);
            put(out, " = ");
            expression(out, src, 0, types);
            put(out, ";\n");
        },
        IRInst::CompoundAssign { dest, kind, value } => {
            put(out, padding.as_str());
            expression(out, dest, 0, types);
            put(out, " ");
            put(out, binary_operator(*kind));
            put(out, "= ");
            expression(out, value, 0, types);
            put(out, ";\n");
        },
        IRInst::Return(value) => {
            put(out, padding.as_str());
            match value {
                Some(value) => {
                    put(out, "return ");
                    expression(out, value, 0, types);
                    put(out, ";\n");
                },
                None => {
                    put(out, "return;\n");
                },
            }
        },
        IRInst::DeclareVariable { variable, ty } => {
            put(out, padding.as_str());
            put(out, "let ");
            variable_name(out, *variable);
            put(out, ": ");
            name_of_type(out, ty, types.structs);
            put(out, ";\n");
        },
        IRInst::DeclareAndAssignVariable { variable, ty, value } => {
            put(out, padding.as_str());
            put(out, "let ");
            variable_name(out, *variable);
            put(out, ": ");
            name_of_type(out, ty, types.structs);
            put(out, " = ");
            expression(out, value, 0, types);
            put(out, ";\n");
        },
        IRInst::AssignVariable { variable, value } => {
            put(out, padding.as_str());
            variable_name(out, *variable);
            put(out, " = ");
            expression(out, value, 0, types);
            put(out, ";\n");
        },
        IRInst::LoadVariable { variable, address } => {
            put(out, padding.as_str());
            variable_name(out, *variable);
            put(out, " = ");
            dereference(out, address, types);
            put(out, ";\n");
        },
        IRInst::StoreVariable { address, variable } => {
            put(out, padding.as_str());
            dereference(out, address, types);
            put(out, " = ");
            variable_name(out, *variable);
            put(out, ";\n");
        },
        IRInst::If { condition, then_branch, else_branch } => {
            put(out, padding.as_str());
            put(out, "if (");
            expression(out, condition, 0, types);
            put(out, ") {\n");
            instructions(out, then_branch, &nested, types, address_comments);
            if else_branch.len() > 0 {
                put(out, padding.as_str());
                put(out, "} else {\n");
                instructions(out, else_branch, &nested, types, address_comments);
            }
            put(out, padding.as_str());
            put(out, "}\n");
        },
        IRInst::While { label, entry_offset, condition, body } => {
            match condition {
                LoopCondition::Before { offset, expression: check } => {
                    if address_comments && *offset != *entry_offset {
                        put_address(out, padding, *offset);
                    }
                    put(out, padding.as_str());
                    put_label(out, label);
                    put(out, "while (");
                    expression(out, check, 0, types);
                    put(out, ") {\n");
                },
                LoopCondition::After { .. } => {
                    put(out, padding.as_str());
                    put_label(out, label);
                    put(out, "do {\n");
                },
            }
            let previous: usize = body_lines(
                out,
                *entry_offset,
                body,
                &nested,
                types,
                address_comments,
            );
            match condition {
                LoopCondition::Before { .. } => {
                    put(out, padding.as_str());
                    put(out, "}\n");
                },
                LoopCondition::After { offset, expression: check } => {
                    if address_comments && previous != *offset {
                        put_address(out, &nested, *offset);
                    }
                    put(out, padding.as_str());
                    put(out, "} while (");
                    expression(out, check, 0, types);
                    put(out, ");\n");
                },
            }
        },
        IRInst::ForEach {
            entry_offset,
            condition_offset,
            advance_offset,
            load_offset,
            variable,
            element_type,
            vector,
            start,
            index_bits,
            body,
        } => {
            if address_comments {
                put_address(out, padding, *entry_offset);
                put(out, padding.as_str());
                put(out, "// u");
                put_decimal(out, *index_bits as u128);
                put(out, " index wraps; advance 0x");
                put_hex(out, *advance_offset as u128);
                put(out, ", load 0x");
                put_hex(out, *load_offset as u128);
                put(out, "\n");
            }
            if address_comments && *condition_offset != *entry_offset {
                put_address(out, padding, *condition_offset);
            }
            put(out, padding.as_str());
            put(out, "for ");
            variable_name(out, *variable);
            put(out, ": ");
            name_of_type(out, element_type, types.structs);
            put(out, " in ");
            expression(out, vector, 10, types);
            put(out, "[");
            put_decimal(out, *start as u128);
            put(out, "..] {\n");
            let _previous: usize = body_lines(
                out,
                *entry_offset,
                body,
                &nested,
                types,
                address_comments,
            );
            put(out, padding.as_str());
            put(out, "}\n");
        },
        IRInst::Continue => {
            put(out, padding.as_str());
            put(out, "continue;\n");
        },
        IRInst::ContinueLoop(label) => {
            put(out, padding.as_str());
            put(out, "continue loop_");
            put_decimal(out, label.id as u128);
            put(out, ";\n");
        },
        IRInst::Break => {
            put(out, padding.as_str());
            put(out, "break;\n");
        },
        IRInst::CallSynthetic { function, arguments } => {
            put(out, padding.as_str());
            put(out, "return ");
            function_name(out, *function);
            put(out, "(");
            put_arguments(out, arguments, types);
            put(out, ");\n");
        },
        IRInst::Jump(target) => {
            put(out, padding.as_str());
            put(out, "jump(");
            expression(out, target, 0, types);
            put(out, ");\n");
        },
        IRInst::End => {
            put(out, padding.as_str());
            put(out, "end();\n");
        },
    }
}

fn instructions(
    out: &mut String,
    instructions: &Vec<IRInst>,
    padding: &String,
    types: &RenderTypes,
    address_comments: bool,
)
    ensures
        final(out)@ == instructions_text(
            old(out)@,
            models(instructions@),
            padding@,
            types.model(),
            address_comments,
        ),
    decreases instructions,
{
    let ghost all = models(instructions@);
    let mut i: usize = 0;
    assert(all.subrange(0, 0) =~= Seq::<InstModel>::empty());
    while i < instructions.len()
        invariant
            i <= instructions@.len(),
            all == models(instructions@),
            out@ == instructions_text(
                old(out)@,
                all.subrange(0, i as int),
                padding@,
                types.model(),
                address_comments,
            ),
        decreases instructions@.len() - i,
    {
        let ghost prefix = all.subrange(0, i + 1);
        assert(prefix.drop_last() =~= all.subrange(0, i as int));
        assert(decreases_to!(instructions => instructions@[i as int]));
        instruction(out, &instructions[i], padding, types, address_comments);
        i = i + 1;
    }
    assert(all.subrange(0, i as int) =~= all);
}

/// Appends a body, and returns the address that was last given.
fn body_lines(
    out: &mut String,
    entry_offset: usize,
    body: &Vec<(usize, IRInst)>,
    padding: &String,
    types: &RenderTypes,
    address_comments: bool,
) -> (previous: usize)
    ensures
        (final(out)@, previous) == body_text(
            old(out)@,
            entry_offset,
            body_models(body@),
            padding@,
            types.model(),
            address_comments,
        ),
    decreases body,
{
    let ghost all = body_models(body@);
    let mut previous: usize = entry_offset;
    let mut i: usize = 0;
    assert(all.subrange(0, 0) =~= Seq::<(usize, InstModel)>::empty());
    while i < body.len()
        invariant
            i <= body@.len(),
            all == body_models(body@),
            (out@, previous) == body_text(
                old(out)@,
                entry_offset,
                all.subrange(0, i as int),
                padding@,
                types.model(),
                address_comments,
            ),
        decreases body@.len() - i,
    {
        let ghost prefix = all.subrange(0, i + 1);
        assert(prefix.drop_last() =~= all.subrange(0, i as int));
        assert(prefix[i as int] == (body@[i as int].0, body@[i as int].1.model()));
        assert(decreases_to!(body => body@[i as int]));
        if address_comments && previous != body[i].0 {
            put_address(out, padding, body[i].0);
            previous = body[i].0;
        }
        instruction(out, &body[i].1, padding, types, address_comments);
        i = i + 1;
    }
    assert(all.subrange(0, i as int) =~= all);
    previous
}

// ---------------------------------------------------------------------------
// Programs

/// The text after a list of parameters with their types.
pub open spec fn parameters_text(
    out: Seq<char>,
    parameters: Seq<Parameter>,
    structs: Seq<StructModel>,
) -> Seq<char>
    decreases parameters.len(),
{
    if parameters.len() == 0 {
        out
    } else {
        let listed = parameters_text(out, parameters.drop_last(), structs);
        let separated = if parameters.len() > 1 {
            listed + ", "@
        } else {
            listed
        };
        match parameters.last() {
            Parameter::Argument { ordinal, ty } => type_text(
                separated + "arg"@ + decimal(ordinal as nat) + ": "@,
                ty,
                structs,
            ),
            Parameter::Slot { variable, ty } => type_text(
                variable_name_text(separated, variable) + ": "@,
                ty,
                structs,
            ),
        }
    }
}

fn put_parameters(
    out: &mut String,
    parameters: &Vec<Parameter>,
    structs: &Vec<StructDefinition>,
)
    ensures
        final(out)@ == parameters_text(old(out)@, parameters@, struct_models(structs@)),
{
    let mut i: usize = 0;
    assert(parameters@.subrange(0, 0) =~= Seq::<Parameter>::empty());
    while i < parameters.len()
        invariant
            i <= parameters@.len(),
            out@ == parameters_text(
                old(out)@,
                parameters@.subrange(0, i as int),
                struct_models(structs@),
            ),
        decreases parameters@.len() - i,
    {
        let ghost prefix = parameters@.subrange(0, i + 1);
        assert(prefix.drop_last() =~= parameters@.subrange(0, i as int));
        if i > 0 {
            put(out, ", ");
        }
        match &parameters[i] {
            Parameter::Argument { ordinal, ty } => {
                put(out, "arg");
                put_decimal(out, *ordinal as u128);
                put(out, ": ");
                name_of_type(out, ty, structs);
            },
            Parameter::Slot { variable, ty } => {
                variable_name(out, *variable);
                put(out, ": ");
                name_of_type(out, ty, structs);
            },
        }
        i = i + 1;
    }
    assert(parameters@.subrange(0, i as int) =~= parameters@);
}

/// The text after a function.
pub open spec fn function_text(
    out: Seq<char>,
    index: usize,
    function: FunctionModel,
    structs: Seq<StructModel>,
    address_comments: bool,
) -> Seq<char> {
    let types = TypesModel { context: context_of(function), structs };
    let headed = parameters_text(
        function_name_text(out + "\nfunction "@, SyntheticFunctionId { id: index }) + "("@,
        function.parameters,
        structs,
    ) + ") {"@;
    let opened = if address_comments {
        headed + " // 0x"@ + hex(function.entry_offset as nat)
    } else {
        headed
    } + "\n"@;
    body_text(
        opened,
        function.entry_offset,
        function.body,
        "    "@,
        types,
        address_comments,
    ).0 + "}\n"@
}

pub open spec fn functions_text(
    out: Seq<char>,
    functions: Seq<FunctionModel>,
    structs: Seq<StructModel>,
    address_comments: bool,
) -> Seq<char>
    decreases functions.len(),
{
    if functions.len() == 0 {
        out
    } else {
        function_text(
            functions_text(out, functions.drop_last(), structs, address_comments),
            (functions.len() - 1) as usize,
            functions.last(),
            structs,
            address_comments,
        )
    }
}

/// The text of a program.
pub open spec fn program_text(program: ProgramModel, address_comments: bool) -> Seq<char> {
    functions_text(
        match program.entry {
            Some(entry) => function_name_text("// entry: "@, entry) + "\n"@,
            None => "// entry: none\n"@,
        },
        program.functions,
        program.structs,
        address_comments,
    )
}

/// Render the complete tier 6 program, optionally including source address comments.
pub fn render(program: &Program, address_comments: bool) -> (res: String)
    ensures
        res@ == program_text(program.model(), address_comments),
{
    let mut output: String = match program.entry {
        Some(entry) => {
            let mut output = owned("// entry: ");
            function_name(&mut output, entry);
            put(&mut output, "\n");
            output
        },
        None => owned("// entry: none\n"),
    };
    let ghost start = output@;
    let ghost all = function_models(program.functions@);
    let ghost structs = struct_models(program.structs@);
    let padding = owned("    ");
    let mut index: usize = 0;
    assert(all.subrange(0, 0) =~= Seq::<FunctionModel>::empty());
    while index < program.functions.len()
        invariant
            index <= program.functions@.len(),
            padding@ == "    "@,
            all == function_models(program.functions@),
            structs == struct_models(program.structs@),
            output@ == functions_text(
                start,
                all.subrange(0, index as int),
                structs,
                address_comments,
            ),
        decreases program.functions@.len() - index,
    {
        let ghost prefix = all.subrange(0, index + 1);
        assert(prefix.drop_last() =~= all.subrange(0, index as int));
        let function = &program.functions[index];
        let types = RenderTypes::from_function(function, &program.structs);
        put(&mut output, "\nfunction ");
        function_name(&mut output, SyntheticFunctionId { id: index });
        put(&mut output, "(");
        put_parameters(&mut output, &function.parameters, &program.structs);
        put(&mut output, ") {");
        if address_comments {
            put(&mut output, " // 0x");
            put_hex(&mut output, function.entry_offset as u128);
        }
        put(&mut output, "\n");
        let _previous: usize = body_lines(
            &mut output,
            function.entry_offset,
            &function.body,
            &padding,
            &types,
            address_comments,
        );
        put(&mut output, "}\n");
        index = index + 1;
    }
    assert(all.subrange(0, index as int) =~= all);
    output
}

} // verus!
