//! The tier 3 program: one structured function with loops.
use crate::table::Key;
use crate::text::{decimal, owned, put_decimal};
use crate::x86::Register;
use vstd::prelude::*;

verus! {

/// The identity of a synthetic function.
#[derive(Clone, Copy, Debug, PartialEq, Eq, Structural)]
pub struct SyntheticFunctionId {
    pub id: usize,
}

/// Variable numbers are local to their owning synthetic function.
#[derive(Clone, Copy, Debug, PartialEq, Eq, Structural)]
pub struct VariableId {
    pub owner: SyntheticFunctionId,
    pub id: usize,
}

/// Identifies a loop when a recovered back edge crosses another loop.
#[derive(Clone, Copy, Debug, PartialEq, Eq, Structural)]
pub struct LoopId {
    pub id: usize,
}

/// The identity of a program-wide data slot.
#[derive(Clone, Copy, Debug, PartialEq, Eq, Structural)]
pub struct DataId {
    pub id: u64,
}

impl Key for VariableId {
    fn equal(&self, other: &Self) -> (res: bool) {
        *self == *other
    }
}

impl Key for DataId {
    fn equal(&self, other: &Self) -> (res: bool) {
        *self == *other
    }
}

/// An integer interpretation, independent of a machine register.
#[derive(Clone, Copy, Debug, PartialEq, Eq, Structural)]
pub struct IntegerType {
    pub size: usize,
    pub signed: bool,
}

impl IntegerType {
    /// `i` or `u`, and the width in bits.
    pub open spec fn name_text(self) -> Seq<char> {
        (if self.signed {
            "i"@
        } else {
            "u"@
        }) + decimal(self.size as nat * 8)
    }

    pub fn name(&self) -> (res: String)
        ensures
            res@ == self.name_text(),
    {
        let mut res = owned(
            if self.signed {
                "i"
            } else {
                "u"
            },
        );
        put_decimal(&mut res, self.size as u128 * 8);
        res
    }
}

#[derive(Clone, Copy, Debug, PartialEq, Eq, Structural)]
pub enum IRBinOpKind {
    Add,
    Sub,
    Mul,
    Shl,
    /// Logical right shift, with the width of the left operand.
    Shr,
    BitOr,
    And,
    Or,
    Eq,
    SignedGt,
    UnsignedLt,
}

#[derive(Clone, Copy, Debug, PartialEq, Eq, Structural)]
pub enum VariableType {
    Unknown(Option<usize>),
    /// A slot associated with this exact machine register.
    Register(Register),
    Bool,
}

#[derive(Debug)]
pub enum IRExpr {
    BinOp { kind: IRBinOpKind, lhs: Box<IRExpr>, rhs: Box<IRExpr> },
    Deref(Box<IRExpr>),
    /// A byte address explicitly cast to a pointer for a memory operation.
    CastUnknownPtr { address: Box<IRExpr>, size: Option<usize> },
    Argument(usize),
    /// Numeric conversion: interpret the input using `source`, then convert
    /// to `target`, truncating modulo its width. No register alias semantics.
    Convert { value: Box<IRExpr>, source: IntegerType, target: IntegerType },
    CU8(u8),
    CU32(u32),
    CU64(u64),
    Variable(VariableId),
    Data(DataId),
    Bool(bool),
    Not(Box<IRExpr>),
}

impl Clone for IRExpr {
    fn clone(&self) -> (res: Self)
        ensures
            res == *self,
        decreases self,
    {
        match self {
            IRExpr::BinOp { kind, lhs, rhs } => IRExpr::BinOp {
                kind: *kind,
                lhs: Box::new((**lhs).clone()),
                rhs: Box::new((**rhs).clone()),
            },
            IRExpr::Deref(address) => IRExpr::Deref(Box::new((**address).clone())),
            IRExpr::CastUnknownPtr { address, size } => IRExpr::CastUnknownPtr {
                address: Box::new((**address).clone()),
                size: *size,
            },
            IRExpr::Argument(ordinal) => IRExpr::Argument(*ordinal),
            IRExpr::Convert { value, source, target } => IRExpr::Convert {
                value: Box::new((**value).clone()),
                source: *source,
                target: *target,
            },
            IRExpr::CU8(value) => IRExpr::CU8(*value),
            IRExpr::CU32(value) => IRExpr::CU32(*value),
            IRExpr::CU64(value) => IRExpr::CU64(*value),
            IRExpr::Variable(variable) => IRExpr::Variable(*variable),
            IRExpr::Data(id) => IRExpr::Data(*id),
            IRExpr::Bool(value) => IRExpr::Bool(*value),
            IRExpr::Not(inner) => IRExpr::Not(Box::new((**inner).clone())),
        }
    }
}

impl IRExpr {
    /// Structural equality.
    pub fn same(&self, other: &Self) -> (res: bool)
        ensures
            res == (*self == *other),
        decreases self,
    {
        match (self, other) {
            (IRExpr::BinOp { kind, lhs, rhs }, IRExpr::BinOp {
                kind: kind2,
                lhs: lhs2,
                rhs: rhs2,
            }) => *kind == *kind2 && lhs.same(lhs2) && rhs.same(rhs2),
            (IRExpr::Deref(address), IRExpr::Deref(address2)) => address.same(address2),
            (IRExpr::CastUnknownPtr { address, size }, IRExpr::CastUnknownPtr {
                address: address2,
                size: size2,
            }) => address.same(address2) && *size == *size2,
            (IRExpr::Argument(ordinal), IRExpr::Argument(ordinal2)) => *ordinal == *ordinal2,
            (IRExpr::Convert { value, source, target }, IRExpr::Convert {
                value: value2,
                source: source2,
                target: target2,
            }) => value.same(value2) && *source == *source2 && *target == *target2,
            (IRExpr::CU8(value), IRExpr::CU8(value2)) => *value == *value2,
            (IRExpr::CU32(value), IRExpr::CU32(value2)) => *value == *value2,
            (IRExpr::CU64(value), IRExpr::CU64(value2)) => *value == *value2,
            (IRExpr::Variable(variable), IRExpr::Variable(variable2)) => *variable == *variable2,
            (IRExpr::Data(id), IRExpr::Data(id2)) => *id == *id2,
            (IRExpr::Bool(value), IRExpr::Bool(value2)) => *value == *value2,
            (IRExpr::Not(inner), IRExpr::Not(inner2)) => inner.same(inner2),
            _ => false,
        }
    }
}

impl PartialEq for IRExpr {
    fn eq(&self, other: &Self) -> (res: bool) {
        self.same(other)
    }
}

impl Eq for IRExpr {

}

impl vstd::std_specs::cmp::PartialEqSpecImpl for IRExpr {
    open spec fn obeys_eq_spec() -> bool {
        true
    }

    open spec fn eq_spec(&self, other: &Self) -> bool {
        *self == *other
    }
}

#[derive(Clone, Copy, Debug, PartialEq, Eq, Structural)]
pub enum Parameter {
    /// An incoming value at the true entry point that is in no register.
    Input { ordinal: usize, size: usize },
    /// An incoming machine register at the true entry point. The register
    /// alias carries the width, and its full register identifies the family.
    Native { ordinal: usize, register: Register },
    /// An incoming register value passed by a synthetic predecessor. The
    /// register alias carries the width, and its full register identifies the family.
    Slot { variable: VariableId, register: Register },
    /// A value passed between control-flow partitions with no native identity.
    Value { variable: VariableId, size: usize },
}

impl Parameter {
    /// The variable that holds the parameter, unless it is an argument.
    pub open spec fn local(self) -> Option<VariableId> {
        match self {
            Parameter::Slot { variable, .. } | Parameter::Value { variable, .. } => Some(variable),
            _ => None,
        }
    }

    pub fn variable(&self) -> (res: Option<VariableId>)
        ensures
            res == self.local(),
    {
        match self {
            Parameter::Slot { variable, .. } | Parameter::Value { variable, .. } => Some(*variable),
            _ => None,
        }
    }

    /// The type of a slot for the parameter.
    pub open spec fn ty(self) -> VariableType {
        match self {
            Parameter::Native { register, .. } => VariableType::Register(register),
            Parameter::Slot { register, .. } => VariableType::Register(register),
            Parameter::Input { size, .. } => VariableType::Unknown(Some(size)),
            Parameter::Value { size, .. } => VariableType::Unknown(Some(size)),
        }
    }

    pub fn slot_type(&self) -> (res: VariableType)
        ensures
            res == self.ty(),
    {
        match self {
            Parameter::Native { register, .. } => VariableType::Register(*register),
            Parameter::Slot { register, .. } => VariableType::Register(*register),
            Parameter::Input { size, .. } => VariableType::Unknown(Some(*size)),
            Parameter::Value { size, .. } => VariableType::Unknown(Some(*size)),
        }
    }

    /// The width in bytes.
    pub open spec fn width(self) -> usize {
        match self {
            Parameter::Native { register, .. } => register.width(),
            Parameter::Slot { register, .. } => register.width(),
            Parameter::Input { size, .. } => size,
            Parameter::Value { size, .. } => size,
        }
    }

    pub fn size(&self) -> (res: usize)
        ensures
            res == self.width(),
    {
        match self {
            Parameter::Native { register, .. } => register.size(),
            Parameter::Slot { register, .. } => register.size(),
            Parameter::Input { size, .. } => *size,
            Parameter::Value { size, .. } => *size,
        }
    }
}

#[allow(inconsistent_fields)]
#[derive(Debug)]
pub enum IRInst {
    Assign { dest: IRExpr, src: IRExpr },
    Return(Option<IRExpr>),
    DeclareVariable { variable: VariableId, ty: VariableType },
    AssignVariable { variable: VariableId, value: IRExpr },
    /// Read a non-absolute address into a local Unknown slot.
    LoadVariable { variable: VariableId, address: IRExpr },
    /// Write a local Unknown slot back to a non-absolute address.
    StoreVariable { address: IRExpr, variable: VariableId },
    /// Structured branches may fall through to a shared continuation.
    If { condition: IRExpr, then_branch: Vec<IRInst>, else_branch: Vec<IRInst> },
    /// Repeat the body; falling through it repeats it as well.
    Loop { label: Option<LoopId>, entry_offset: usize, body: Vec<(usize, IRInst)> },
    /// Exit the enclosing loop.
    Break,
    /// Continue at the beginning of the enclosing loop.
    Continue,
    /// Continue a specific enclosing loop, including across nested loops.
    ContinueLoop(LoopId),
    /// Tail call into a shared synthetic function; the caller does not resume.
    CallSynthetic { function: SyntheticFunctionId, arguments: Vec<IRExpr> },
    /// A jump outside the locally lifted function.
    Jump(IRExpr),
    /// The source ends without another instruction.
    End,
}

/// An instruction, with sequences in place of vectors.
#[allow(inconsistent_fields)]
pub enum InstModel {
    Assign { dest: IRExpr, src: IRExpr },
    Return(Option<IRExpr>),
    DeclareVariable { variable: VariableId, ty: VariableType },
    AssignVariable { variable: VariableId, value: IRExpr },
    LoadVariable { variable: VariableId, address: IRExpr },
    StoreVariable { address: IRExpr, variable: VariableId },
    If { condition: IRExpr, then_branch: Seq<InstModel>, else_branch: Seq<InstModel> },
    Loop { label: Option<LoopId>, entry_offset: usize, body: Seq<(usize, InstModel)> },
    Break,
    Continue,
    ContinueLoop(LoopId),
    CallSynthetic { function: SyntheticFunctionId, arguments: Seq<IRExpr> },
    Jump(IRExpr),
    End,
}

impl IRInst {
    /// The value behind the vectors.
    pub open spec fn model(self) -> InstModel
        decreases self,
    {
        match self {
            IRInst::Assign { dest, src } => InstModel::Assign { dest, src },
            IRInst::Return(value) => InstModel::Return(value),
            IRInst::DeclareVariable { variable, ty } => InstModel::DeclareVariable { variable, ty },
            IRInst::AssignVariable {
                variable,
                value,
            } => InstModel::AssignVariable { variable, value },
            IRInst::LoadVariable {
                variable,
                address,
            } => InstModel::LoadVariable { variable, address },
            IRInst::StoreVariable {
                address,
                variable,
            } => InstModel::StoreVariable { address, variable },
            IRInst::If { condition, then_branch, else_branch } => InstModel::If {
                condition,
                then_branch: models(then_branch@),
                else_branch: models(else_branch@),
            },
            IRInst::Loop { label, entry_offset, body } => InstModel::Loop {
                label,
                entry_offset,
                body: body_models(body@),
            },
            IRInst::Break => InstModel::Break,
            IRInst::Continue => InstModel::Continue,
            IRInst::ContinueLoop(label) => InstModel::ContinueLoop(label),
            IRInst::CallSynthetic { function, arguments } => InstModel::CallSynthetic {
                function,
                arguments: arguments@,
            },
            IRInst::Jump(target) => InstModel::Jump(target),
            IRInst::End => InstModel::End,
        }
    }
}

pub open spec fn models(instructions: Seq<IRInst>) -> Seq<InstModel>
    decreases instructions,
{
    Seq::new(
        instructions.len(),
        |i: int|
            if 0 <= i < instructions.len() {
                instructions[i].model()
            } else {
                arbitrary()
            },
    )
}

pub open spec fn body_models(body: Seq<(usize, IRInst)>) -> Seq<(usize, InstModel)>
    decreases body,
{
    Seq::new(
        body.len(),
        |i: int|
            if 0 <= i < body.len() {
                (body[i].0, body[i].1.model())
            } else {
                arbitrary()
            },
    )
}

pub fn clone_expressions(expressions: &Vec<IRExpr>) -> (res: Vec<IRExpr>)
    ensures
        res@ == expressions@,
{
    let mut res: Vec<IRExpr> = Vec::new();
    let mut i: usize = 0;
    while i < expressions.len()
        invariant
            i <= expressions@.len(),
            res@ == expressions@.subrange(0, i as int),
        decreases expressions@.len() - i,
    {
        res.push(expressions[i].clone());
        i = i + 1;
        assert(res@ =~= expressions@.subrange(0, i as int));
    }
    assert(res@ =~= expressions@);
    res
}

pub fn clone_instructions(instructions: &Vec<IRInst>) -> (res: Vec<IRInst>)
    ensures
        models(res@) == models(instructions@),
    decreases instructions,
{
    let mut res: Vec<IRInst> = Vec::new();
    let mut i: usize = 0;
    while i < instructions.len()
        invariant
            i <= instructions@.len(),
            res@.len() == i,
            forall|k: int|
                0 <= k < i ==> (#[trigger] res@[k]).model() == instructions@[k].model(),
        decreases instructions@.len() - i,
    {
        assert(decreases_to!(instructions => instructions@[i as int]));
        res.push(instructions[i].clone());
        i = i + 1;
    }
    assert(models(res@) =~= models(instructions@));
    res
}

pub fn clone_body(body: &Vec<(usize, IRInst)>) -> (res: Vec<(usize, IRInst)>)
    ensures
        body_models(res@) == body_models(body@),
    decreases body,
{
    let mut res: Vec<(usize, IRInst)> = Vec::new();
    let mut i: usize = 0;
    while i < body.len()
        invariant
            i <= body@.len(),
            res@.len() == i,
            forall|k: int|
                0 <= k < i ==> (#[trigger] res@[k]).0 == body@[k].0 && res@[k].1.model()
                    == body@[k].1.model(),
        decreases body@.len() - i,
    {
        assert(decreases_to!(body => body@[i as int]));
        res.push((body[i].0, body[i].1.clone()));
        i = i + 1;
    }
    assert(body_models(res@) =~= body_models(body@));
    res
}

impl Clone for IRInst {
    fn clone(&self) -> (res: Self)
        ensures
            res.model() == self.model(),
        decreases self,
    {
        match self {
            IRInst::Assign { dest, src } => IRInst::Assign { dest: dest.clone(), src: src.clone() },
            IRInst::Return(value) => IRInst::Return(match value {
                Some(inner) => Some(inner.clone()),
                None => None,
            }),
            IRInst::DeclareVariable { variable, ty } => IRInst::DeclareVariable {
                variable: *variable,
                ty: *ty,
            },
            IRInst::AssignVariable { variable, value } => IRInst::AssignVariable {
                variable: *variable,
                value: value.clone(),
            },
            IRInst::LoadVariable { variable, address } => IRInst::LoadVariable {
                variable: *variable,
                address: address.clone(),
            },
            IRInst::StoreVariable { address, variable } => IRInst::StoreVariable {
                address: address.clone(),
                variable: *variable,
            },
            IRInst::If { condition, then_branch, else_branch } => IRInst::If {
                condition: condition.clone(),
                then_branch: clone_instructions(then_branch),
                else_branch: clone_instructions(else_branch),
            },
            IRInst::Loop { label, entry_offset, body } => IRInst::Loop {
                label: *label,
                entry_offset: *entry_offset,
                body: clone_body(body),
            },
            IRInst::Break => IRInst::Break,
            IRInst::Continue => IRInst::Continue,
            IRInst::ContinueLoop(label) => IRInst::ContinueLoop(*label),
            IRInst::CallSynthetic { function, arguments } => IRInst::CallSynthetic {
                function: *function,
                arguments: clone_expressions(arguments),
            },
            IRInst::Jump(target) => IRInst::Jump(target.clone()),
            IRInst::End => IRInst::End,
        }
    }
}

/// A program-wide data slot. The address is also its stable identity.
#[derive(Debug)]
pub struct DataVariable {
    pub id: DataId,
    pub address: u64,
    pub name: String,
    pub ty: VariableType,
}

pub struct DataModel {
    pub id: DataId,
    pub address: u64,
    pub name: Seq<char>,
    pub ty: VariableType,
}

impl DataVariable {
    /// The value behind the vectors.
    pub open spec fn model(self) -> DataModel
    {
        match self {
            DataVariable { id, address, name, ty } => DataModel { id, address, name: name@, ty },
        }
    }
}

/// The models of a list of data slots.
pub open spec fn data_models(data: Seq<DataVariable>) -> Seq<DataModel> {
    data.map_values(|d: DataVariable| d.model())
}

/// One shared partition lifted into a synthetic function.
#[derive(Debug)]
pub struct SyntheticFunction {
    pub entry_offset: usize,
    pub parameters: Vec<Parameter>,
    pub body: Vec<(usize, IRInst)>,
}

pub struct FunctionModel {
    pub entry_offset: usize,
    pub parameters: Seq<Parameter>,
    pub body: Seq<(usize, InstModel)>,
}

impl SyntheticFunction {
    /// The value behind the vectors.
    pub open spec fn model(self) -> FunctionModel
    {
        match self {
            SyntheticFunction { entry_offset, parameters, body } => FunctionModel {
                entry_offset,
                parameters: parameters@,
                body: body_models(body@),
            },
        }
    }
}

/// The models of a list of functions.
pub open spec fn function_models(functions: Seq<SyntheticFunction>) -> Seq<FunctionModel> {
    functions.map_values(|f: SyntheticFunction| f.model())
}

#[derive(Debug)]
pub struct Program {
    pub entry_address: usize,
    pub entry: Option<SyntheticFunctionId>,
    pub data: Vec<DataVariable>,
    pub functions: Vec<SyntheticFunction>,
}

pub struct ProgramModel {
    pub entry_address: usize,
    pub entry: Option<SyntheticFunctionId>,
    pub data: Seq<DataModel>,
    pub functions: Seq<FunctionModel>,
}

impl Program {
    /// The value behind the vectors.
    pub open spec fn model(self) -> ProgramModel
    {
        match self {
            Program { entry_address, entry, data, functions } => ProgramModel {
                entry_address,
                entry,
                data: data_models(data@),
                functions: function_models(functions@),
            },
        }
    }
}

} // verus!
