//! Infer a function result from the final, recovered expressions. Literals carry
//! a width but no signedness; a typed return may supply that missing evidence.
use super::arithmetic::{context_of, type_of, Context, ContextModel};
use super::effects::{body_effects, Effects};
use super::ir::{
    body_models, data_models, field_address, field_of, models, struct_models, DataId, DataModel,
    DataVariable, FunctionModel, IRBinOpKind, IRExpr, IRInst, InstModel, Program, ProgramModel,
    StructDefinition, StructField, StructModel, SyntheticFunction, SyntheticFunctionId, VariableId,
    VariableType,
};
use super::lists::{
    depth, depth_body, lemma_item_depth, lemma_tagged, tag, tagged, untag, untagged,
};
use super::relocate_variables::{collect_parameters, slot_parameters};
use crate::table::KeySet;
use vstd::prelude::*;

verus! {

/// What is known of a returned value.
#[derive(Debug)]
pub enum Value {
    /// Nothing is returned.
    Void,
    Unknown,
    /// A literal of a width in bytes.
    Literal(u8),
    Typed(VariableType),
    Conflict,
}

impl Clone for Value {
    fn clone(&self) -> (res: Self)
        ensures
            res == *self,
    {
        match self {
            Value::Void => Value::Void,
            Value::Unknown => Value::Unknown,
            Value::Literal(size) => Value::Literal(*size),
            Value::Typed(ty) => Value::Typed(ty.clone()),
            Value::Conflict => Value::Conflict,
        }
    }
}

impl Value {
    /// What holds of two returned values together.
    pub open spec fn joined(self, other: Self) -> Self {
        match (self, other) {
            (Value::Conflict, _) => Value::Conflict,
            (_, Value::Conflict) => Value::Conflict,
            (Value::Void, Value::Void) => Value::Void,
            (Value::Void, _) => Value::Conflict,
            (_, Value::Void) => Value::Conflict,
            (Value::Unknown, _) => Value::Unknown,
            (_, Value::Unknown) => Value::Unknown,
            (Value::Literal(left), Value::Literal(right)) => if left == right {
                self
            } else {
                Value::Conflict
            },
            (Value::Literal(size), Value::Typed(ty)) => if is_number(ty, size) {
                other
            } else {
                Value::Conflict
            },
            (Value::Typed(ty), Value::Literal(size)) => if is_number(ty, size) {
                self
            } else {
                Value::Conflict
            },
            (Value::Typed(left), Value::Typed(right)) => if left == right {
                self
            } else {
                match (left, right) {
                    (VariableType::Integer(a), VariableType::UnsignedInteger(b)) => if a == b {
                        other
                    } else {
                        Value::Conflict
                    },
                    (VariableType::UnsignedInteger(a), VariableType::Integer(b)) => if a == b {
                        self
                    } else {
                        Value::Conflict
                    },
                    _ => Value::Conflict,
                }
            },
        }
    }

    fn join(self, other: Self) -> (res: Self)
        ensures
            res == self.joined(other),
    {
        match (&self, &other) {
            (Value::Conflict, _) => Value::Conflict,
            (_, Value::Conflict) => Value::Conflict,
            (Value::Void, Value::Void) => Value::Void,
            (Value::Void, _) => Value::Conflict,
            (_, Value::Void) => Value::Conflict,
            (Value::Unknown, _) => Value::Unknown,
            (_, Value::Unknown) => Value::Unknown,
            (Value::Literal(left), Value::Literal(right)) => if *left == *right {
                self
            } else {
                Value::Conflict
            },
            (Value::Literal(size), Value::Typed(ty)) => if number(ty, *size) {
                other
            } else {
                Value::Conflict
            },
            (Value::Typed(ty), Value::Literal(size)) => if number(ty, *size) {
                self
            } else {
                Value::Conflict
            },
            (Value::Typed(left), Value::Typed(right)) => if left.same(right) {
                self
            } else {
                match (left, right) {
                    (VariableType::Integer(a), VariableType::UnsignedInteger(b)) => if *a == *b {
                        other
                    } else {
                        Value::Conflict
                    },
                    (VariableType::UnsignedInteger(a), VariableType::Integer(b)) => if *a == *b {
                        self
                    } else {
                        Value::Conflict
                    },
                    _ => Value::Conflict,
                }
            },
        }
    }

    /// The type of a result, where there is one. A literal alone is an integer.
    pub open spec fn typed(self) -> Option<VariableType> {
        match self {
            Value::Typed(ty) => Some(ty),
            Value::Literal(size) => Some(VariableType::Integer((size * 8) as usize)),
            _ => None,
        }
    }

    fn result_type(self) -> (res: Option<VariableType>)
        ensures
            res == self.typed(),
    {
        match self {
            Value::Typed(ty) => Some(ty),
            Value::Literal(size) => Some(VariableType::Integer(size as usize * 8)),
            _ => None,
        }
    }
}

/// Whether a type is an integer of a width in bytes.
pub open spec fn is_number(ty: VariableType, size: u8) -> bool {
    match ty {
        VariableType::Integer(bits) => bits == size * 8,
        VariableType::UnsignedInteger(bits) => bits == size * 8,
        _ => false,
    }
}

fn number(ty: &VariableType, size: u8) -> (res: bool)
    ensures
        res == is_number(*ty, size),
{
    match ty {
        VariableType::Integer(bits) => *bits == size as usize * 8,
        VariableType::UnsignedInteger(bits) => *bits == size as usize * 8,
        _ => false,
    }
}

/// The order in which two returns are met makes no difference, and a return that
/// is met again none either.
pub proof fn law_returns_join(a: Value, b: Value)
    ensures
        a.joined(b) == b.joined(a),
        a.joined(a) == a,
        a.joined(b).joined(b) == a.joined(b),
{
}

/// The declared types that a function can name.
pub struct TypesModel {
    pub context: ContextModel,
    pub data: Seq<DataModel>,
    pub structs: Seq<StructModel>,
}

pub struct Types<'a> {
    pub context: Context,
    pub data: &'a Vec<DataVariable>,
    pub structs: &'a Vec<StructDefinition>,
}

pub open spec fn types_in(function: FunctionModel, program: ProgramModel) -> TypesModel {
    TypesModel { context: context_of(function), data: program.data, structs: program.structs }
}

/// The type of a data slot; the last one of its identity counts.
pub open spec fn data_type(data: Seq<DataModel>, id: DataId) -> Option<VariableType>
    decreases data.len(),
{
    if data.len() == 0 {
        None
    } else if data.last().id == id {
        Some(data.last().ty)
    } else {
        data_type(data.drop_last(), id)
    }
}

/// The declared type of an expression that is a slot.
pub open spec fn direct_type(types: TypesModel, expr: IRExpr) -> Option<VariableType> {
    match expr {
        IRExpr::Data(id) => data_type(types.data, id),
        _ => type_of(types.context, expr),
    }
}

pub open spec fn known(ty: Option<VariableType>) -> Value {
    match ty {
        Some(VariableType::Unknown(_)) => Value::Unknown,
        Some(ty) => Value::Typed(ty),
        None => Value::Unknown,
    }
}

/// The type of the field at an offset of a struct; the first one counts.
pub open spec fn field_type(fields: Seq<StructField>, offset: usize) -> Option<VariableType>
    decreases fields.len(),
{
    if fields.len() == 0 {
        None
    } else if fields[0].offset == offset {
        Some(fields[0].ty)
    } else {
        field_type(fields.subrange(1, fields.len() as int), offset)
    }
}

/// The struct field that an address is that of.
pub open spec fn struct_field(types: TypesModel, address: IRExpr) -> Option<Value> {
    match field_of(address) {
        Some((base, offset)) => match direct_type(types, base) {
            Some(VariableType::Pointer(pointee)) => match *pointee {
                VariableType::Struct(id) => Some(
                    known(
                        if id.id < types.structs.len() {
                            field_type(types.structs[id.id as int].fields, offset)
                        } else {
                            None
                        },
                    ),
                ),
                _ => None,
            },
            _ => None,
        },
        None => None,
    }
}

pub open spec fn pointee_width(ty: VariableType) -> Option<usize> {
    match ty {
        VariableType::Integer(bits) => Some((bits / 8) as usize),
        VariableType::UnsignedInteger(bits) => Some((bits / 8) as usize),
        VariableType::Bool => Some(1),
        _ => None,
    }
}

/// What is known of the value at an address.
pub open spec fn value_at(types: TypesModel, address: IRExpr) -> Value {
    match address {
        IRExpr::ElementAddress { base, element_size, .. } => known(
            match direct_type(types, *base) {
                Some(VariableType::Vector(element)) => Some(*element),
                Some(VariableType::Pointer(element)) => Some(*element),
                Some(VariableType::CString) => if element_size == 1 {
                    Some(VariableType::Integer(8))
                } else {
                    None
                },
                _ => None,
            },
        ),
        _ => match struct_field(types, address) {
            Some(value) => value,
            None => known(
                match address {
                    IRExpr::MemoryAddress { address: inner, size } => match direct_type(
                        types,
                        *inner,
                    ) {
                        Some(VariableType::Pointer(pointee)) => if size is None || size
                            == pointee_width(*pointee) {
                            Some(*pointee)
                        } else {
                            None
                        },
                        _ => None,
                    },
                    _ => match direct_type(types, address) {
                        Some(VariableType::Pointer(pointee)) => Some(*pointee),
                        _ => None,
                    },
                },
            ),
        },
    }
}

/// The type of the address of an element.
pub open spec fn element_pointer(base: Option<VariableType>) -> Option<VariableType> {
    match base {
        Some(VariableType::Vector(element)) => Some(VariableType::Pointer(element)),
        Some(VariableType::Pointer(element)) => Some(VariableType::Pointer(element)),
        Some(VariableType::CString) => Some(
            VariableType::Pointer(Box::new(VariableType::Integer(8))),
        ),
        _ => None,
    }
}

pub open spec fn is_pointer(ty: VariableType) -> bool {
    ty is Pointer || ty is UnknownPointer
}

/// What is known of the result of an operation.
pub open spec fn operation_value(kind: IRBinOpKind, left: Value, right: Value) -> Value {
    match kind {
        IRBinOpKind::Eq
        | IRBinOpKind::SignedGt
        | IRBinOpKind::SignedLe
        | IRBinOpKind::Ne
        | IRBinOpKind::UnsignedLt
        | IRBinOpKind::UnsignedGe
        | IRBinOpKind::LogicalAnd
        | IRBinOpKind::Or => Value::Typed(VariableType::Bool),
        IRBinOpKind::Shl | IRBinOpKind::Shr => left,
        IRBinOpKind::UnsignedMod => match left {
            Value::Typed(VariableType::Integer(bits)) => Value::Typed(
                VariableType::UnsignedInteger(bits),
            ),
            Value::Typed(VariableType::UnsignedInteger(bits)) => left,
            Value::Literal(size) => Value::Typed(
                VariableType::UnsignedInteger((size * 8) as usize),
            ),
            _ => Value::Unknown,
        },
        IRBinOpKind::Add
        | IRBinOpKind::Sub
        | IRBinOpKind::Mul
        | IRBinOpKind::BitOr
        | IRBinOpKind::And => if (kind == IRBinOpKind::Add || kind == IRBinOpKind::Sub) && (
        left matches Value::Typed(ty) && is_pointer(ty)) && right is Literal {
            left
        } else {
            match left.joined(right) {
                Value::Conflict => Value::Unknown,
                value => value,
            }
        },
    }
}

/// What is known of the value of an expression.
pub open spec fn value_of(types: TypesModel, expr: IRExpr) -> Value
    decreases expr,
{
    match expr {
        IRExpr::Argument(_) | IRExpr::Variable(_) | IRExpr::Data(_) => known(
            direct_type(types, expr),
        ),
        IRExpr::CU8(_) => Value::Literal(1),
        IRExpr::CU32(_) => Value::Literal(4),
        IRExpr::CU64(_) => Value::Literal(8),
        IRExpr::Bool(_) | IRExpr::Not(_) => Value::Typed(VariableType::Bool),
        IRExpr::Convert { target, .. } => Value::Typed(
            if target.signed {
                VariableType::Integer(target.size.wrapping_mul(8))
            } else {
                VariableType::UnsignedInteger(target.size.wrapping_mul(8))
            },
        ),
        IRExpr::BinOp { kind, lhs, rhs } => operation_value(
            kind,
            value_of(types, *lhs),
            value_of(types, *rhs),
        ),
        IRExpr::Deref(address) => value_at(types, *address),
        IRExpr::ElementAddress { base, .. } => known(element_pointer(direct_type(types, *base))),
        IRExpr::CStringLength(_) => Value::Typed(VariableType::UnsignedInteger(64)),
        IRExpr::MemoryAddress { .. } => Value::Typed(VariableType::UnknownPointer),
    }
}

/// The type of a local that keeps a returned value.
pub open spec fn local_type(types: TypesModel, expr: IRExpr) -> VariableType {
    match value_of(types, expr).typed() {
        Some(ty) => ty,
        None => match direct_type(types, expr) {
            Some(ty) => ty,
            None => match expr {
                IRExpr::Deref(address) => match *address {
                    IRExpr::MemoryAddress { size, .. } => VariableType::Unknown(size),
                    _ => VariableType::Unknown(None),
                },
                _ => VariableType::Unknown(None),
            },
        },
    }
}

fn known_value(ty: Option<VariableType>) -> (res: Value)
    ensures
        res == known(ty),
{
    match ty {
        Some(VariableType::Unknown(_)) => Value::Unknown,
        Some(ty) => Value::Typed(ty),
        None => Value::Unknown,
    }
}

fn find_field(fields: &Vec<StructField>, offset: usize) -> (res: Option<VariableType>)
    ensures
        res == field_type(fields@, offset),
{
    let mut i: usize = 0;
    assert(fields@.subrange(0, fields@.len() as int) =~= fields@);
    while i < fields.len()
        invariant
            i <= fields@.len(),
            field_type(fields@, offset) == field_type(
                fields@.subrange(i as int, fields@.len() as int),
                offset,
            ),
        decreases fields@.len() - i,
    {
        let ghost rest = fields@.subrange(i as int, fields@.len() as int);
        assert(rest[0] == fields@[i as int]);
        assert(rest.subrange(1, rest.len() as int) =~= fields@.subrange(
            i + 1,
            fields@.len() as int,
        ));
        if fields[i].offset == offset {
            return Some(fields[i].ty.clone());
        }
        i = i + 1;
    }
    None
}

fn find_data(data: &Vec<DataVariable>, id: DataId) -> (res: Option<VariableType>)
    ensures
        res == data_type(data_models(data@), id),
{
    let ghost all = data_models(data@);
    assert(all.subrange(0, all.len() as int) =~= all);
    let mut i: usize = data.len();
    while i > 0
        invariant
            i <= data@.len(),
            all == data_models(data@),
            data_type(all, id) == data_type(all.subrange(0, i as int), id),
        decreases i,
    {
        let ghost prefix = all.subrange(0, i as int);
        assert(prefix.drop_last() =~= all.subrange(0, i - 1));
        assert(prefix.last() == data@[i - 1].model());
        i = i - 1;
        if data[i].id == id {
            return Some(data[i].ty.clone());
        }
    }
    None
}

fn width_of(ty: &VariableType) -> (res: Option<usize>)
    ensures
        res == pointee_width(*ty),
{
    match ty {
        VariableType::Integer(bits) => Some(*bits / 8),
        VariableType::UnsignedInteger(bits) => Some(*bits / 8),
        VariableType::Bool => Some(1),
        _ => None,
    }
}

fn operation(kind: IRBinOpKind, left: Value, right: Value) -> (res: Value)
    ensures
        res == operation_value(kind, left, right),
{
    match kind {
        IRBinOpKind::Eq
        | IRBinOpKind::SignedGt
        | IRBinOpKind::SignedLe
        | IRBinOpKind::Ne
        | IRBinOpKind::UnsignedLt
        | IRBinOpKind::UnsignedGe
        | IRBinOpKind::LogicalAnd
        | IRBinOpKind::Or => Value::Typed(VariableType::Bool),
        IRBinOpKind::Shl | IRBinOpKind::Shr => left,
        IRBinOpKind::UnsignedMod => match left {
            Value::Typed(VariableType::Integer(bits)) => Value::Typed(
                VariableType::UnsignedInteger(bits),
            ),
            Value::Typed(VariableType::UnsignedInteger(bits)) => Value::Typed(
                VariableType::UnsignedInteger(bits),
            ),
            Value::Literal(size) => Value::Typed(
                VariableType::UnsignedInteger(size as usize * 8),
            ),
            _ => Value::Unknown,
        },
        _ => {
            let pointer: bool = match &left {
                Value::Typed(VariableType::Pointer(_)) => true,
                Value::Typed(VariableType::UnknownPointer) => true,
                _ => false,
            };
            let literal: bool = match &right {
                Value::Literal(_) => true,
                _ => false,
            };
            if (kind == IRBinOpKind::Add || kind == IRBinOpKind::Sub) && pointer && literal {
                left
            } else {
                match left.join(right) {
                    Value::Conflict => Value::Unknown,
                    value => value,
                }
            }
        },
    }
}

impl<'a> Types<'a> {
    pub open spec fn model(self) -> TypesModel {
        TypesModel {
            context: self.context@,
            data: data_models(self.data@),
            structs: struct_models(self.structs@),
        }
    }

    fn new(function: &SyntheticFunction, program: &'a Program) -> (res: Types<'a>)
        ensures
            res.model() == types_in(function.model(), program.model()),
    {
        Types {
            context: Context::from_function(function),
            data: &program.data,
            structs: &program.structs,
        }
    }

    fn direct(&self, expr: &IRExpr) -> (res: Option<VariableType>)
        ensures
            res == direct_type(self.model(), *expr),
    {
        match expr {
            IRExpr::Data(id) => find_data(self.data, *id),
            _ => match self.context.direct_type(expr) {
                Some(ty) => Some(ty.clone()),
                None => None,
            },
        }
    }

    fn field(&self, address: &IRExpr) -> (res: Option<Value>)
        ensures
            res == struct_field(self.model(), *address),
    {
        match field_address(address) {
            Some((base, offset)) => match self.direct(base) {
                Some(VariableType::Pointer(pointee)) => match *pointee {
                    VariableType::Struct(id) => {
                        if id.id < self.structs.len() {
                            assert(struct_models(self.structs@)[id.id as int]
                                == self.structs@[id.id as int].model());
                            Some(known_value(find_field(&self.structs[id.id].fields, offset)))
                        } else {
                            Some(Value::Unknown)
                        }
                    },
                    _ => None,
                },
                _ => None,
            },
            None => None,
        }
    }

    fn dereference(&self, address: &IRExpr) -> (res: Value)
        ensures
            res == value_at(self.model(), *address),
    {
        if let IRExpr::ElementAddress { base, element_size, .. } = address {
            let ty: Option<VariableType> = match self.direct(base) {
                Some(VariableType::Vector(element)) => Some(*element),
                Some(VariableType::Pointer(element)) => Some(*element),
                Some(VariableType::CString) => if *element_size == 1 {
                    Some(VariableType::Integer(8))
                } else {
                    None
                },
                _ => None,
            };
            return known_value(ty);
        }
        if let Some(value) = self.field(address) {
            return value;
        }
        let pointee: Option<VariableType> = match address {
            IRExpr::MemoryAddress { address: inner, size } => match self.direct(inner) {
                Some(VariableType::Pointer(pointee)) => {
                    let fits: bool = match (*size, width_of(&pointee)) {
                        (None, _) => true,
                        (Some(a), Some(b)) => a == b,
                        (Some(_), None) => false,
                    };
                    if fits {
                        Some(*pointee)
                    } else {
                        None
                    }
                },
                _ => None,
            },
            _ => match self.direct(address) {
                Some(VariableType::Pointer(pointee)) => Some(*pointee),
                _ => None,
            },
        };
        known_value(pointee)
    }

    fn expression(&self, expr: &IRExpr) -> (res: Value)
        ensures
            res == value_of(self.model(), *expr),
        decreases expr,
    {
        match expr {
            IRExpr::Argument(_) | IRExpr::Variable(_) | IRExpr::Data(_) => known_value(
                self.direct(expr),
            ),
            IRExpr::CU8(_) => Value::Literal(1),
            IRExpr::CU32(_) => Value::Literal(4),
            IRExpr::CU64(_) => Value::Literal(8),
            IRExpr::Bool(_) | IRExpr::Not(_) => Value::Typed(VariableType::Bool),
            IRExpr::Convert { target, .. } => Value::Typed(
                if target.signed {
                    VariableType::Integer(target.size.wrapping_mul(8))
                } else {
                    VariableType::UnsignedInteger(target.size.wrapping_mul(8))
                },
            ),
            IRExpr::BinOp { kind, lhs, rhs } => operation(
                *kind,
                self.expression(lhs),
                self.expression(rhs),
            ),
            IRExpr::Deref(address) => self.dereference(address),
            IRExpr::ElementAddress { base, .. } => {
                let ty: Option<VariableType> = match self.direct(base) {
                    Some(VariableType::Vector(element)) => Some(VariableType::Pointer(element)),
                    Some(VariableType::Pointer(element)) => Some(VariableType::Pointer(element)),
                    Some(VariableType::CString) => Some(
                        VariableType::Pointer(Box::new(VariableType::Integer(8))),
                    ),
                    _ => None,
                };
                known_value(ty)
            },
            IRExpr::CStringLength(_) => Value::Typed(VariableType::UnsignedInteger(64)),
            IRExpr::MemoryAddress { .. } => Value::Typed(VariableType::UnknownPointer),
        }
    }

    fn lowered_type(&self, expr: &IRExpr) -> (res: VariableType)
        ensures
            res == local_type(self.model(), *expr),
    {
        if let Some(ty) = self.expression(expr).result_type() {
            return ty;
        }
        if let Some(ty) = self.direct(expr) {
            return ty;
        }
        match expr {
            IRExpr::Deref(address) => match &**address {
                IRExpr::MemoryAddress { size, .. } => VariableType::Unknown(*size),
                _ => VariableType::Unknown(None),
            },
            _ => VariableType::Unknown(None),
        }
    }
}

/// The returns met so far, and the functions that were looked into.
pub struct ReturnsModel {
    pub value: Option<Value>,
    pub seen: Set<usize>,
}

pub struct Returns {
    pub value: Option<Value>,
    pub seen: KeySet<usize>,
}

impl ReturnsModel {
    pub open spec fn observing(self, next: Value) -> Self {
        ReturnsModel {
            value: Some(
                match self.value {
                    Some(previous) => previous.joined(next),
                    None => next,
                },
            ),
            ..self
        }
    }

    pub open spec fn seeing(self, id: usize) -> Self {
        ReturnsModel { seen: self.seen.insert(id), ..self }
    }
}

impl Returns {
    pub open spec fn model(self) -> ReturnsModel {
        ReturnsModel { value: self.value, seen: self.seen@ }
    }

    fn observe(&mut self, next: Value)
        ensures
            final(self).model() == old(self).model().observing(next),
    {
        let found: Value = match &self.value {
            Some(previous) => previous.clone().join(next),
            None => next,
        };
        self.value = Some(found);
    }
}

/// What is known of the returns after an instruction. Synthetic calls are tail
/// transfers, so the returns of the callee count as well. No chain of calls goes
/// through more functions than there are, which `fuel` counts down from.
pub open spec fn returns_with(
    instr: InstModel,
    state: ReturnsModel,
    types: TypesModel,
    program: ProgramModel,
    fuel: nat,
) -> ReturnsModel
    decreases fuel, instr,
{
    match instr {
        InstModel::Return(value) => state.observing(match value {
            Some(value) => value_of(types, value),
            None => Value::Void,
        }),
        InstModel::If { then_branch, else_branch, .. } => returns_with_list(
            else_branch,
            returns_with_list(then_branch, state, types, program, fuel),
            types,
            program,
            fuel,
        ),
        InstModel::While { body, .. } => returns_with_body(body, state, types, program, fuel),
        InstModel::ForEach { body, .. } => returns_with_body(body, state, types, program, fuel),
        InstModel::CallSynthetic { function, .. } => if state.seen.contains(function.id) {
            state
        } else if function.id >= program.functions.len() {
            state.seeing(function.id).observing(Value::Unknown)
        } else if fuel == 0 {
            state.seeing(function.id)
        } else {
            let callee = program.functions[function.id as int];
            let inner = returns_with_body(
                callee.body,
                ReturnsModel { value: None, seen: state.seen.insert(function.id) },
                types_in(callee, program),
                program,
                (fuel - 1) as nat,
            );
            let after = ReturnsModel { value: state.value, seen: inner.seen };
            match inner.value {
                Some(value) => after.observing(value),
                None => after,
            }
        },
        _ => state,
    }
}

pub open spec fn returns_with_list(
    list: Seq<InstModel>,
    state: ReturnsModel,
    types: TypesModel,
    program: ProgramModel,
    fuel: nat,
) -> ReturnsModel
    decreases fuel, list,
{
    if list.len() == 0 {
        state
    } else {
        returns_with(
            list[list.len() - 1],
            returns_with_list(list.drop_last(), state, types, program, fuel),
            types,
            program,
            fuel,
        )
    }
}

pub open spec fn returns_with_body(
    list: Seq<(usize, InstModel)>,
    state: ReturnsModel,
    types: TypesModel,
    program: ProgramModel,
    fuel: nat,
) -> ReturnsModel
    decreases fuel, list,
{
    if list.len() == 0 {
        state
    } else {
        returns_with(
            list[list.len() - 1].1,
            returns_with_body(list.drop_last(), state, types, program, fuel),
            types,
            program,
            fuel,
        )
    }
}

fn instruction_returns(
    instr: &IRInst,
    state: &mut Returns,
    types: &Types,
    program: &Program,
    fuel: usize,
)
    ensures
        final(state).model() == returns_with(
            instr.model(),
            old(state).model(),
            types.model(),
            program.model(),
            fuel as nat,
        ),
    decreases fuel, instr,
{
    match instr {
        IRInst::Return(value) => {
            match value {
                Some(value) => {
                    let found: Value = types.expression(value);
                    state.observe(found);
                },
                None => state.observe(Value::Void),
            }
        },
        IRInst::If { then_branch, else_branch, .. } => {
            instruction_returns_list(then_branch, state, types, program, fuel);
            instruction_returns_list(else_branch, state, types, program, fuel);
        },
        IRInst::While { body, .. } => {
            instruction_returns_body(body, state, types, program, fuel);
        },
        IRInst::ForEach { body, .. } => {
            instruction_returns_body(body, state, types, program, fuel);
        },
        IRInst::CallSynthetic { function, .. } => {
            if !state.seen.contains(function.id) {
                if function.id >= program.functions.len() {
                    state.seen.insert(function.id);
                    state.observe(Value::Unknown);
                } else if fuel == 0 {
                    state.seen.insert(function.id);
                } else {
                    let callee = &program.functions[function.id];
                    assert(program.model().functions[function.id as int] == callee.model());
                    let mut seen: KeySet<usize> = state.seen.copied();
                    seen.insert(function.id);
                    let mut inner = Returns { value: None, seen };
                    let own: Types = Types::new(callee, program);
                    instruction_returns_body(&callee.body, &mut inner, &own, program, fuel - 1);
                    state.seen = inner.seen;
                    if let Some(value) = inner.value {
                        state.observe(value);
                    }
                }
            }
        },
        _ => {},
    }
}

fn instruction_returns_list(
    list: &Vec<IRInst>,
    state: &mut Returns,
    types: &Types,
    program: &Program,
    fuel: usize,
)
    ensures
        final(state).model() == returns_with_list(
            models(list@),
            old(state).model(),
            types.model(),
            program.model(),
            fuel as nat,
        ),
    decreases fuel, list,
{
    let ghost all = models(list@);
    let ghost start = state.model();
    assert(all.subrange(0, 0) =~= Seq::empty());
    let mut i: usize = 0;
    while i < list.len()
        invariant
            i <= list@.len(),
            all == models(list@),
            state.model() == returns_with_list(
                all.subrange(0, i as int),
                start,
                types.model(),
                program.model(),
                fuel as nat,
            ),
        decreases list@.len() - i,
    {
        let ghost prefix = all.subrange(0, i + 1);
        assert(prefix.drop_last() =~= all.subrange(0, i as int));
        assert(decreases_to!(list => list@[i as int]));
        instruction_returns(&list[i], state, types, program, fuel);
        i = i + 1;
    }
    assert(all.subrange(0, i as int) =~= all);
}

fn instruction_returns_body(
    list: &Vec<(usize, IRInst)>,
    state: &mut Returns,
    types: &Types,
    program: &Program,
    fuel: usize,
)
    ensures
        final(state).model() == returns_with_body(
            body_models(list@),
            old(state).model(),
            types.model(),
            program.model(),
            fuel as nat,
        ),
    decreases fuel, list,
{
    let ghost all = body_models(list@);
    let ghost start = state.model();
    assert(all.subrange(0, 0) =~= Seq::empty());
    let mut i: usize = 0;
    while i < list.len()
        invariant
            i <= list@.len(),
            all == body_models(list@),
            state.model() == returns_with_body(
                all.subrange(0, i as int),
                start,
                types.model(),
                program.model(),
                fuel as nat,
            ),
        decreases list@.len() - i,
    {
        let ghost prefix = all.subrange(0, i + 1);
        assert(prefix.drop_last() =~= all.subrange(0, i as int));
        assert(decreases_to!(list => list@[i as int]));
        instruction_returns(&list[i].1, state, types, program, fuel);
        i = i + 1;
    }
    assert(all.subrange(0, i as int) =~= all);
}


/// What is known of the returns of a function.
pub open spec fn returns_of(program: ProgramModel, id: usize) -> Option<Value> {
    let function = program.functions[id as int];
    returns_with_body(
        function.body,
        ReturnsModel { value: None, seen: Set::empty().insert(id) },
        types_in(function, program),
        program,
        program.functions.len(),
    ).value
}

fn function_returns(program: &Program, id: usize) -> (res: Option<Value>)
    requires
        id < program.functions@.len(),
    ensures
        res == returns_of(program.model(), id),
{
    assert(program.model().functions[id as int] == program.functions@[id as int].model());
    let mut seen: KeySet<usize> = KeySet::new();
    seen.insert(id);
    let mut state = Returns { value: None, seen };
    let function = &program.functions[id];
    let types: Types = Types::new(function, program);
    let fuel: usize = program.functions.len();
    instruction_returns_body(&function.body, &mut state, &types, program, fuel);
    state.value
}

/// The declaration that keeps a returned value.
pub open spec fn kept_value(
    number: usize,
    value: IRExpr,
    types: TypesModel,
    owner: SyntheticFunctionId,
) -> InstModel {
    InstModel::DeclareAndAssignVariable {
        variable: VariableId { owner, id: number },
        ty: local_type(types, value),
        value,
    }
}

/// What stands in place of an instruction: a return keeps its value in a local.
pub open spec fn expanded(
    offset: usize,
    instr: InstModel,
    number: usize,
    types: TypesModel,
    owner: SyntheticFunctionId,
) -> Seq<(usize, InstModel)> {
    match instr {
        InstModel::Return(Some(value)) => seq![
            (offset, kept_value(number, value, types, owner)),
            (offset, InstModel::Return(None)),
        ],
        _ => seq![(offset, instr)],
    }
}

/// An instruction with the returns in its lists lowered, and the next number.
pub open spec fn lowered_child(
    offset: usize,
    instr: InstModel,
    next: usize,
    types: TypesModel,
    owner: SyntheticFunctionId,
) -> (InstModel, usize)
    decreases depth(instr), 0int, 0nat,
{
    match instr {
        InstModel::Return(Some(_)) => (instr, next.wrapping_add(1)),
        InstModel::If { condition, then_branch, else_branch } => {
            proof {
                lemma_tagged(then_branch, offset);
                lemma_tagged(else_branch, offset);
            }
            let first = lowered(tagged(then_branch, offset), next, types, owner);
            let second = lowered(tagged(else_branch, offset), first.1, types, owner);
            (
                InstModel::If {
                    condition,
                    then_branch: untagged(first.0),
                    else_branch: untagged(second.0),
                },
                second.1,
            )
        },
        InstModel::While { label, entry_offset, condition, body } => {
            let inner = lowered(body, next, types, owner);
            (InstModel::While { label, entry_offset, condition, body: inner.0 }, inner.1)
        },
        InstModel::ForEach {
            entry_offset,
            condition_offset,
            advance_offset,
            load_offset,
            variable,
            element_type,
            vector,
            start,
            index_bits,
            body,
        } => {
            let inner = lowered(body, next, types, owner);
            (
                InstModel::ForEach {
                    entry_offset,
                    condition_offset,
                    advance_offset,
                    load_offset,
                    variable,
                    element_type,
                    vector,
                    start,
                    index_bits,
                    body: inner.0,
                },
                inner.1,
            )
        },
        _ => (instr, next),
    }
}

/// A list in which each returned value is kept in a local at the return, which
/// then returns nothing; and the next number.
pub open spec fn lowered(
    list: Seq<(usize, InstModel)>,
    next: usize,
    types: TypesModel,
    owner: SyntheticFunctionId,
) -> (Seq<(usize, InstModel)>, usize)
    decreases depth_body(list), 1int, list.len(),
{
    if list.len() == 0 {
        (Seq::empty(), next)
    } else {
        let before = lowered(list.drop_last(), next, types, owner);
        let item = list[list.len() - 1];
        let child = lowered_child(item.0, item.1, before.1, types, owner);
        (before.0 + expanded(item.0, child.0, before.1, types, owner), child.1)
    }
}

fn lower_return(
    offset: usize,
    instr: &IRInst,
    next: &mut usize,
    types: &Types,
    owner: SyntheticFunctionId,
) -> (res: IRInst)
    ensures
        (res.model(), *final(next)) == lowered_child(
            offset,
            instr.model(),
            *old(next),
            types.model(),
            owner,
        ),
    decreases depth(instr.model()), 0int, 0nat,
{
    match instr {
        IRInst::Return(Some(_)) => {
            *next = next.wrapping_add(1);
            instr.clone()
        },
        IRInst::If { condition, then_branch, else_branch } => {
            proof {
                lemma_tagged(models(then_branch@), offset);
                lemma_tagged(models(else_branch@), offset);
            }
            let first: Vec<(usize, IRInst)> = lower(&tag(then_branch, offset), next, types, owner);
            let second: Vec<(usize, IRInst)> = lower(&tag(else_branch, offset), next, types, owner);
            IRInst::If {
                condition: condition.clone(),
                then_branch: untag(first),
                else_branch: untag(second),
            }
        },
        IRInst::While { label, entry_offset, condition, body } => IRInst::While {
            label: *label,
            entry_offset: *entry_offset,
            condition: condition.clone(),
            body: lower(body, next, types, owner),
        },
        IRInst::ForEach {
            entry_offset,
            condition_offset,
            advance_offset,
            load_offset,
            variable,
            element_type,
            vector,
            start,
            index_bits,
            body,
        } => IRInst::ForEach {
            entry_offset: *entry_offset,
            condition_offset: *condition_offset,
            advance_offset: *advance_offset,
            load_offset: *load_offset,
            variable: *variable,
            element_type: element_type.clone(),
            vector: vector.clone(),
            start: *start,
            index_bits: *index_bits,
            body: lower(body, next, types, owner),
        },
        _ => instr.clone(),
    }
}

fn lower(
    list: &Vec<(usize, IRInst)>,
    next: &mut usize,
    types: &Types,
    owner: SyntheticFunctionId,
) -> (res: Vec<(usize, IRInst)>)
    ensures
        (body_models(res@), *final(next)) == lowered(
            body_models(list@),
            *old(next),
            types.model(),
            owner,
        ),
    decreases depth_body(body_models(list@)), 1int, list@.len(),
{
    let ghost all = body_models(list@);
    let ghost begin = *next;
    let mut res: Vec<(usize, IRInst)> = Vec::new();
    assert(all.subrange(0, 0) =~= Seq::empty());
    assert(body_models(res@) =~= Seq::empty());
    let mut i: usize = 0;
    while i < list.len()
        invariant
            i <= list@.len(),
            all == body_models(list@),
            (body_models(res@), *next) == lowered(
                all.subrange(0, i as int),
                begin,
                types.model(),
                owner,
            ),
        decreases list@.len() - i,
    {
        let ghost prefix = all.subrange(0, i + 1);
        assert(prefix.drop_last() =~= all.subrange(0, i as int));
        proof {
            lemma_item_depth(all, i as int);
        }
        let ghost before = body_models(res@);
        let number: usize = *next;
        let offset: usize = list[i].0;
        let child: IRInst = lower_return(offset, &list[i].1, next, types, owner);
        let ghost made = expanded(offset, child.model(), number, types.model(), owner);
        match child {
            IRInst::Return(Some(value)) => {
                let ty: VariableType = types.lowered_type(&value);
                res.push(
                    (
                        offset,
                        IRInst::DeclareAndAssignVariable {
                            variable: VariableId { owner, id: number },
                            ty,
                            value,
                        },
                    ),
                );
                res.push((offset, IRInst::Return(None)));
                assert(body_models(res@) =~= before + made);
            },
            other => {
                res.push((offset, other));
                assert(body_models(res@) =~= before + made);
            },
        }
        i = i + 1;
    }
    assert(all.subrange(0, i as int) =~= all);
    res
}

/// Whether a function reads, writes or gets a variable.
pub open spec fn has_variable(function: FunctionModel, variable: VariableId) -> bool {
    body_effects(function.body).reads.contains(variable) || body_effects(
        function.body,
    ).writes.contains(variable) || slot_parameters(function.parameters).contains(variable)
}

/// Whether a number follows those of all variables of a function.
pub open spec fn is_next_number(function: FunctionModel, next: usize) -> bool {
    if exists|v: VariableId| has_variable(function, v) {
        exists|last: VariableId| #[trigger]
            has_variable(function, last) && next == last.id.wrapping_add(1) && (forall|
                v: VariableId,
            | #[trigger]
                has_variable(function, v) ==> v.id <= last.id)
    } else {
        next == 0
    }
}

/// The first number that is free for locals of a function.
pub open spec fn next_number(function: FunctionModel) -> usize {
    choose|next: usize| is_next_number(function, next)
}

proof fn lemma_next_number(function: FunctionModel, next: usize)
    requires
        is_next_number(function, next),
    ensures
        next_number(function) == next,
{
    let other = next_number(function);
    assert(is_next_number(function, other));
    if exists|v: VariableId| has_variable(function, v) {
        let a = choose|last: VariableId| #[trigger]
            has_variable(function, last) && next == last.id.wrapping_add(1) && (forall|
                v: VariableId,
            | #[trigger]
                has_variable(function, v) ==> v.id <= last.id);
        let b = choose|last: VariableId| #[trigger]
            has_variable(function, last) && other == last.id.wrapping_add(1) && (forall|
                v: VariableId,
            | #[trigger]
                has_variable(function, v) ==> v.id <= last.id);
        assert(a.id <= b.id && b.id <= a.id);
    }
}

proof fn lemma_last_variable(function: FunctionModel, from: VariableId) -> (last: VariableId)
    requires
        has_variable(function, from),
    ensures
        has_variable(function, last),
        forall|v: VariableId| #[trigger] has_variable(function, v) ==> v.id <= last.id,
    decreases usize::MAX - from.id,
{
    if exists|v: VariableId| #[trigger] has_variable(function, v) && v.id > from.id {
        let next = choose|v: VariableId| #[trigger] has_variable(function, v) && v.id > from.id;
        lemma_last_variable(function, next)
    } else {
        from
    }
}

/// Every function has a number that follows those of its variables.
pub proof fn law_there_is_a_next_number(function: FunctionModel)
    ensures
        is_next_number(function, next_number(function)),
{
    if exists|v: VariableId| has_variable(function, v) {
        let some = choose|v: VariableId| has_variable(function, v);
        let last = lemma_last_variable(function, some);
        assert(is_next_number(function, last.id.wrapping_add(1)));
    } else {
        assert(is_next_number(function, 0));
    }
}

fn largest_of(items: &Vec<VariableId>, from: Option<VariableId>) -> (res: Option<VariableId>)
    ensures
        from is Some ==> res is Some && res->0.id >= from->0.id,
        res matches Some(last) ==> res == from || items@.contains(last),
        forall|v: VariableId| #[trigger]
            items@.contains(v) ==> (res matches Some(last) && v.id <= last.id),
{
    let mut res: Option<VariableId> = from;
    let mut i: usize = 0;
    while i < items.len()
        invariant
            i <= items@.len(),
            from is Some ==> res is Some && res->0.id >= from->0.id,
            res matches Some(last) ==> res == from || items@.contains(last),
            forall|k: int|
                0 <= k < i ==> (res matches Some(last) && (#[trigger] items@[k]).id <= last.id),
        decreases items@.len() - i,
    {
        let item: VariableId = items[i];
        assert(items@.contains(item));
        match res {
            Some(last) => {
                if item.id > last.id {
                    res = Some(item);
                }
            },
            None => {
                res = Some(item);
            },
        }
        i = i + 1;
    }
    res
}

fn next_variable_id(function: &SyntheticFunction) -> (res: usize)
    ensures
        res == next_number(function.model()),
{
    let effects: Effects = Effects::of_body(&function.body);
    let parameters: KeySet<VariableId> = collect_parameters(&function.parameters);
    let reads = effects.reads.items();
    let writes = effects.writes.items();
    let gets = parameters.items();
    let first: Option<VariableId> = largest_of(reads, None);
    let second: Option<VariableId> = largest_of(writes, first);
    let third: Option<VariableId> = largest_of(gets, second);
    let next: usize = match third {
        Some(last) => last.id.wrapping_add(1),
        None => 0,
    };
    proof {
        let model = function.model();
        assert forall|v: VariableId| #[trigger] has_variable(model, v) implies (
        third matches Some(last) && v.id <= last.id) by {
            assert(reads@.contains(v) || writes@.contains(v) || gets@.contains(v));
        }
        if let Some(last) = third {
            assert(reads@.contains(last) || writes@.contains(last) || gets@.contains(last));
            assert(has_variable(model, last));
        }
        assert(is_next_number(model, next));
        lemma_next_number(model, next);
    }
    next
}

/// A function with its result type. Where the returns disagree, each returned
/// value is kept in a local at its return, and nothing is returned.
pub open spec fn function_with_result(program: ProgramModel, id: usize) -> FunctionModel {
    let function = program.functions[id as int];
    let found = returns_of(program, id);
    FunctionModel {
        return_type: match found {
            Some(value) => value.typed(),
            None => None,
        },
        body: if found == Some(Value::Conflict) {
            lowered(
                function.body,
                next_number(function),
                types_in(function, program),
                SyntheticFunctionId { id },
            ).0
        } else {
            function.body
        },
        ..function
    }
}

/// A program with the result types of its functions.
pub open spec fn program_with_results(program: ProgramModel) -> ProgramModel {
    ProgramModel {
        functions: Seq::new(
            program.functions.len(),
            |i: int| function_with_result(program, i as usize),
        ),
        ..program
    }
}

fn lower_function(program: &Program, id: usize) -> (res: Vec<(usize, IRInst)>)
    requires
        id < program.functions@.len(),
    ensures
        body_models(res@) == lowered(
            program.model().functions[id as int].body,
            next_number(program.model().functions[id as int]),
            types_in(program.model().functions[id as int], program.model()),
            SyntheticFunctionId { id },
        ).0,
{
    assert(program.model().functions[id as int] == program.functions@[id as int].model());
    let function = &program.functions[id];
    let types: Types = Types::new(function, program);
    let mut next: usize = next_variable_id(function);
    lower(&function.body, &mut next, &types, SyntheticFunctionId { id })
}

/// Infers the result types of the functions of a program.
pub fn run(program: &mut Program)
    ensures
        final(program).model() == program_with_results(old(program).model()),
{
    let ghost before = program.model();
    let ghost initial = *program;
    let total: usize = program.functions.len();
    let mut types: Vec<Option<VariableType>> = Vec::new();
    let mut bodies: Vec<Option<Vec<(usize, IRInst)>>> = Vec::new();
    let mut i: usize = 0;
    while i < total
        invariant
            i <= total,
            total == program.functions@.len(),
            before == program.model(),
            types@.len() == i,
            bodies@.len() == i,
            forall|k: int|
                0 <= k < i ==> (#[trigger] types@[k]) == function_with_result(
                    before,
                    k as usize,
                ).return_type,
            forall|k: int|
                0 <= k < i ==> (match #[trigger] bodies@[k] {
                    Some(body) => body_models(body@) == function_with_result(
                        before,
                        k as usize,
                    ).body,
                    None => before.functions[k].body == function_with_result(
                        before,
                        k as usize,
                    ).body,
                }),
        decreases total - i,
    {
        let found: Option<Value> = function_returns(program, i);
        let conflicting: bool = match &found {
            Some(Value::Conflict) => true,
            _ => false,
        };
        let ty: Option<VariableType> = match found {
            Some(value) => value.result_type(),
            None => None,
        };
        types.push(ty);
        if conflicting {
            bodies.push(Some(lower_function(program, i)));
        } else {
            bodies.push(None);
        }
        i = i + 1;
    }
    let mut i: usize = total;
    while i > 0
        invariant
            i <= total,
            total == program.functions@.len(),
            total == before.functions.len(),
            types@.len() == i,
            bodies@.len() == i,
            *program == (Program { functions: program.functions, ..initial }),
            forall|k: int|
                0 <= k < i ==> (#[trigger] types@[k]) == function_with_result(
                    before,
                    k as usize,
                ).return_type,
            forall|k: int|
                0 <= k < i ==> (match #[trigger] bodies@[k] {
                    Some(body) => body_models(body@) == function_with_result(
                        before,
                        k as usize,
                    ).body,
                    None => before.functions[k].body == function_with_result(
                        before,
                        k as usize,
                    ).body,
                }),
            forall|k: int|
                i <= k < total ==> (#[trigger] program.functions@[k]).model()
                    == function_with_result(before, k as usize),
            forall|k: int|
                0 <= k < i ==> (#[trigger] program.functions@[k]).model() == before.functions[k],
        decreases i,
    {
        i = i - 1;
        let ty: Option<Option<VariableType>> = types.pop();
        let body: Option<Option<Vec<(usize, IRInst)>>> = bodies.pop();
        if let Some(ty) = ty {
            program.functions[i].return_type = ty;
        }
        if let Some(Some(body)) = body {
            program.functions[i].body = body;
        }
    }
    assert(program.model().functions =~= program_with_results(before).functions);
}

/// How many functions were not looked into yet.
spec fn missing(seen: Set<usize>, count: nat) -> nat
    decreases count,
{
    if count == 0 {
        0
    } else {
        missing(seen, (count - 1) as nat) + if seen.contains((count - 1) as usize) {
            0nat
        } else {
            1nat
        }
    }
}

proof fn lemma_fewer_missing(low: Set<usize>, high: Set<usize>, count: nat)
    requires
        low.subset_of(high),
    ensures
        missing(high, count) <= missing(low, count),
    decreases count,
{
    if count > 0 {
        lemma_fewer_missing(low, high, (count - 1) as nat);
    }
}

proof fn lemma_one_missing(seen: Set<usize>, id: usize, count: nat)
    requires
        id < count,
        !seen.contains(id),
    ensures
        missing(seen.insert(id), count) < missing(seen, count),
    decreases count,
{
    lemma_fewer_missing(seen, seen.insert(id), (count - 1) as nat);
    if id < count - 1 {
        lemma_one_missing(seen, id, (count - 1) as nat);
    }
}

proof fn lemma_seen_grows(
    instr: InstModel,
    state: ReturnsModel,
    types: TypesModel,
    program: ProgramModel,
    fuel: nat,
)
    ensures
        state.seen.subset_of(returns_with(instr, state, types, program, fuel).seen),
    decreases fuel, instr,
{
    match instr {
        InstModel::If { then_branch, else_branch, .. } => {
            lemma_seen_grows_list(then_branch, state, types, program, fuel);
            lemma_seen_grows_list(
                else_branch,
                returns_with_list(then_branch, state, types, program, fuel),
                types,
                program,
                fuel,
            );
        },
        InstModel::While { body, .. } => {
            lemma_seen_grows_body(body, state, types, program, fuel);
        },
        InstModel::ForEach { body, .. } => {
            lemma_seen_grows_body(body, state, types, program, fuel);
        },
        InstModel::CallSynthetic { function, .. } => {
            if fuel > 0 && function.id < program.functions.len() {
                let callee = program.functions[function.id as int];
                lemma_seen_grows_body(
                    callee.body,
                    ReturnsModel { value: None, seen: state.seen.insert(function.id) },
                    types_in(callee, program),
                    program,
                    (fuel - 1) as nat,
                );
            }
        },
        _ => {},
    }
}

proof fn lemma_seen_grows_list(
    list: Seq<InstModel>,
    state: ReturnsModel,
    types: TypesModel,
    program: ProgramModel,
    fuel: nat,
)
    ensures
        state.seen.subset_of(returns_with_list(list, state, types, program, fuel).seen),
    decreases fuel, list,
{
    if list.len() > 0 {
        lemma_seen_grows_list(list.drop_last(), state, types, program, fuel);
        lemma_seen_grows(
            list[list.len() - 1],
            returns_with_list(list.drop_last(), state, types, program, fuel),
            types,
            program,
            fuel,
        );
    }
}

proof fn lemma_seen_grows_body(
    list: Seq<(usize, InstModel)>,
    state: ReturnsModel,
    types: TypesModel,
    program: ProgramModel,
    fuel: nat,
)
    ensures
        state.seen.subset_of(returns_with_body(list, state, types, program, fuel).seen),
    decreases fuel, list,
{
    if list.len() > 0 {
        lemma_seen_grows_body(list.drop_last(), state, types, program, fuel);
        lemma_seen_grows(
            list[list.len() - 1].1,
            returns_with_body(list.drop_last(), state, types, program, fuel),
            types,
            program,
            fuel,
        );
    }
}

proof fn lemma_fuel(
    instr: InstModel,
    state: ReturnsModel,
    types: TypesModel,
    program: ProgramModel,
    fuel: nat,
)
    requires
        fuel >= missing(state.seen, program.functions.len()),
    ensures
        returns_with(instr, state, types, program, fuel + 1) == returns_with(
            instr,
            state,
            types,
            program,
            fuel,
        ),
    decreases fuel, instr,
{
    let count = program.functions.len();
    match instr {
        InstModel::If { then_branch, else_branch, .. } => {
            let first = returns_with_list(then_branch, state, types, program, fuel);
            lemma_fuel_list(then_branch, state, types, program, fuel);
            lemma_seen_grows_list(then_branch, state, types, program, fuel);
            lemma_fewer_missing(state.seen, first.seen, count);
            lemma_fuel_list(else_branch, first, types, program, fuel);
        },
        InstModel::While { body, .. } => {
            lemma_fuel_body(body, state, types, program, fuel);
        },
        InstModel::ForEach { body, .. } => {
            lemma_fuel_body(body, state, types, program, fuel);
        },
        InstModel::CallSynthetic { function, .. } => {
            if function.id < count && !state.seen.contains(function.id) {
                let callee = program.functions[function.id as int];
                lemma_one_missing(state.seen, function.id, count);
                lemma_fuel_body(
                    callee.body,
                    ReturnsModel { value: None, seen: state.seen.insert(function.id) },
                    types_in(callee, program),
                    program,
                    (fuel - 1) as nat,
                );
            }
        },
        _ => {},
    }
}

proof fn lemma_fuel_list(
    list: Seq<InstModel>,
    state: ReturnsModel,
    types: TypesModel,
    program: ProgramModel,
    fuel: nat,
)
    requires
        fuel >= missing(state.seen, program.functions.len()),
    ensures
        returns_with_list(list, state, types, program, fuel + 1) == returns_with_list(
            list,
            state,
            types,
            program,
            fuel,
        ),
    decreases fuel, list,
{
    if list.len() > 0 {
        let before = returns_with_list(list.drop_last(), state, types, program, fuel);
        lemma_fuel_list(list.drop_last(), state, types, program, fuel);
        lemma_seen_grows_list(list.drop_last(), state, types, program, fuel);
        lemma_fewer_missing(state.seen, before.seen, program.functions.len());
        lemma_fuel(list[list.len() - 1], before, types, program, fuel);
    }
}

proof fn lemma_fuel_body(
    list: Seq<(usize, InstModel)>,
    state: ReturnsModel,
    types: TypesModel,
    program: ProgramModel,
    fuel: nat,
)
    requires
        fuel >= missing(state.seen, program.functions.len()),
    ensures
        returns_with_body(list, state, types, program, fuel + 1) == returns_with_body(
            list,
            state,
            types,
            program,
            fuel,
        ),
    decreases fuel, list,
{
    if list.len() > 0 {
        let before = returns_with_body(list.drop_last(), state, types, program, fuel);
        lemma_fuel_body(list.drop_last(), state, types, program, fuel);
        lemma_seen_grows_body(list.drop_last(), state, types, program, fuel);
        lemma_fewer_missing(state.seen, before.seen, program.functions.len());
        lemma_fuel(list[list.len() - 1].1, before, types, program, fuel);
    }
}

proof fn lemma_missing_bound(seen: Set<usize>, count: nat)
    ensures
        missing(seen, count) <= count,
    decreases count,
{
    if count > 0 {
        lemma_missing_bound(seen, (count - 1) as nat);
    }
}

/// No chain of calls is cut short: to follow longer ones finds no other returns.
pub proof fn law_no_chain_of_calls_is_cut_short(program: ProgramModel, id: usize, fuel: nat)
    requires
        id < program.functions.len(),
        fuel >= program.functions.len(),
    ensures
        returns_with_body(
            program.functions[id as int].body,
            ReturnsModel { value: None, seen: Set::empty().insert(id) },
            types_in(program.functions[id as int], program),
            program,
            fuel,
        ).value == returns_of(program, id),
    decreases fuel,
{
    if fuel > program.functions.len() {
        let function = program.functions[id as int];
        let state = ReturnsModel { value: None, seen: Set::empty().insert(id) };
        law_no_chain_of_calls_is_cut_short(program, id, (fuel - 1) as nat);
        lemma_missing_bound(state.seen, program.functions.len());
        lemma_fuel_body(
            function.body,
            state,
            types_in(function, program),
            program,
            (fuel - 1) as nat,
        );
    }
}

/// Whether an instruction returns a value, itself or in its lists.
pub open spec fn gives_back(instr: InstModel) -> bool
    decreases instr,
{
    match instr {
        InstModel::Return(value) => value is Some,
        InstModel::If { then_branch, else_branch, .. } => gives_back_list(then_branch)
            || gives_back_list(else_branch),
        InstModel::While { body, .. } => gives_back_body(body),
        InstModel::ForEach { body, .. } => gives_back_body(body),
        _ => false,
    }
}

pub open spec fn gives_back_list(list: Seq<InstModel>) -> bool
    decreases list,
{
    list.len() > 0 && (gives_back_list(list.drop_last()) || gives_back(list[list.len() - 1]))
}

pub open spec fn gives_back_body(list: Seq<(usize, InstModel)>) -> bool
    decreases list,
{
    list.len() > 0 && (gives_back_body(list.drop_last()) || gives_back(list[list.len() - 1].1))
}

proof fn lemma_gives_back_untagged(list: Seq<(usize, InstModel)>)
    ensures
        gives_back_list(untagged(list)) == gives_back_body(list),
    decreases list.len(),
{
    let all = untagged(list);
    if list.len() > 0 {
        lemma_gives_back_untagged(list.drop_last());
        assert(all.drop_last() =~= untagged(list.drop_last()));
        assert(all[all.len() - 1] == list[list.len() - 1].1);
    }
}

proof fn lemma_gives_back_push(list: Seq<(usize, InstModel)>, item: (usize, InstModel))
    ensures
        gives_back_body(list.push(item)) == (gives_back_body(list) || gives_back(item.1)),
{
    assert(list.push(item).drop_last() =~= list);
}

proof fn lemma_lowered_child_gives_nothing_back(
    offset: usize,
    instr: InstModel,
    next: usize,
    types: TypesModel,
    owner: SyntheticFunctionId,
)
    ensures
        ({
            let made = lowered_child(offset, instr, next, types, owner).0;
            gives_back(made) ==> (made matches InstModel::Return(Some(_)))
        }),
    decreases depth(instr), 0int, 0nat,
{
    match instr {
        InstModel::If { then_branch, else_branch, .. } => {
            let first = lowered(tagged(then_branch, offset), next, types, owner);
            let second = lowered(tagged(else_branch, offset), first.1, types, owner);
            lemma_tagged(then_branch, offset);
            lemma_tagged(else_branch, offset);
            law_lowered_lists_give_nothing_back(tagged(then_branch, offset), next, types, owner);
            law_lowered_lists_give_nothing_back(tagged(else_branch, offset), first.1, types, owner);
            lemma_gives_back_untagged(first.0);
            lemma_gives_back_untagged(second.0);
        },
        InstModel::While { body, .. } => {
            law_lowered_lists_give_nothing_back(body, next, types, owner);
        },
        InstModel::ForEach { body, .. } => {
            law_lowered_lists_give_nothing_back(body, next, types, owner);
        },
        _ => {},
    }
}

/// Where the returns of a function disagree, its lowered body returns no value
/// anywhere.
pub proof fn law_lowered_lists_give_nothing_back(
    list: Seq<(usize, InstModel)>,
    next: usize,
    types: TypesModel,
    owner: SyntheticFunctionId,
)
    ensures
        !gives_back_body(lowered(list, next, types, owner).0),
    decreases depth_body(list), 1int, list.len(),
{
    if list.len() > 0 {
        let before = lowered(list.drop_last(), next, types, owner);
        let item = list[list.len() - 1];
        let child = lowered_child(item.0, item.1, before.1, types, owner);
        let made = expanded(item.0, child.0, before.1, types, owner);
        law_lowered_lists_give_nothing_back(list.drop_last(), next, types, owner);
        lemma_lowered_child_gives_nothing_back(item.0, item.1, before.1, types, owner);
        if made.len() == 2 {
            let first = before.0.push(made[0]);
            assert(before.0 + made =~= first.push(made[1]));
            lemma_gives_back_push(before.0, made[0]);
            lemma_gives_back_push(first, made[1]);
        } else {
            assert(before.0 + made =~= before.0.push(made[0]));
            lemma_gives_back_push(before.0, made[0]);
        }
    }
}

} // verus!
