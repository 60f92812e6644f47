//! The tier 1 program: shared partitions as synthetic functions over registers.
use crate::table::Table;
use crate::x86::Register;
use vstd::prelude::*;

verus! {

#[derive(Clone, Copy, Debug, PartialEq, Eq, Hash, Structural)]
pub enum NativeFlag {
    Carry,
    Parity,
    AuxCarry,
    Zero,
    Sign,
    Trap,
    InterruptEnable,
    Direction,
    Overflow,
}

/// A set of flags.
#[derive(Clone, Copy, Debug, PartialEq, Eq, Structural)]
pub struct FlagSet {
    pub carry: bool,
    pub parity: bool,
    pub aux_carry: bool,
    pub zero: bool,
    pub sign: bool,
    pub trap: bool,
    pub interrupt_enable: bool,
    pub direction: bool,
    pub overflow: bool,
}

impl FlagSet {
    pub open spec fn has(self, flag: NativeFlag) -> bool {
        match flag {
            NativeFlag::Carry => self.carry,
            NativeFlag::Parity => self.parity,
            NativeFlag::AuxCarry => self.aux_carry,
            NativeFlag::Zero => self.zero,
            NativeFlag::Sign => self.sign,
            NativeFlag::Trap => self.trap,
            NativeFlag::InterruptEnable => self.interrupt_enable,
            NativeFlag::Direction => self.direction,
            NativeFlag::Overflow => self.overflow,
        }
    }

    /// The set with the flags for which the rule holds.
    pub open spec fn such_that(rule: spec_fn(NativeFlag) -> bool) -> FlagSet {
        FlagSet {
            carry: rule(NativeFlag::Carry),
            parity: rule(NativeFlag::Parity),
            aux_carry: rule(NativeFlag::AuxCarry),
            zero: rule(NativeFlag::Zero),
            sign: rule(NativeFlag::Sign),
            trap: rule(NativeFlag::Trap),
            interrupt_enable: rule(NativeFlag::InterruptEnable),
            direction: rule(NativeFlag::Direction),
            overflow: rule(NativeFlag::Overflow),
        }
    }

    pub open spec fn none() -> FlagSet {
        FlagSet::such_that(|f: NativeFlag| false)
    }

    pub open spec fn adding(self, flag: NativeFlag) -> FlagSet {
        FlagSet::such_that(|f: NativeFlag| f == flag || self.has(f))
    }

    pub open spec fn both(self, other: FlagSet) -> FlagSet {
        FlagSet::such_that(|f: NativeFlag| self.has(f) && other.has(f))
    }

    pub open spec fn either(self, other: FlagSet) -> FlagSet {
        FlagSet::such_that(|f: NativeFlag| self.has(f) || other.has(f))
    }

    pub open spec fn without(self, other: FlagSet) -> FlagSet {
        FlagSet::such_that(|f: NativeFlag| self.has(f) && !other.has(f))
    }

    pub fn new() -> (res: Self)
        ensures
            res == FlagSet::none(),
    {
        FlagSet {
            carry: false,
            parity: false,
            aux_carry: false,
            zero: false,
            sign: false,
            trap: false,
            interrupt_enable: false,
            direction: false,
            overflow: false,
        }
    }

    pub fn contains(&self, flag: NativeFlag) -> (res: bool)
        ensures
            res == self.has(flag),
    {
        match flag {
            NativeFlag::Carry => self.carry,
            NativeFlag::Parity => self.parity,
            NativeFlag::AuxCarry => self.aux_carry,
            NativeFlag::Zero => self.zero,
            NativeFlag::Sign => self.sign,
            NativeFlag::Trap => self.trap,
            NativeFlag::InterruptEnable => self.interrupt_enable,
            NativeFlag::Direction => self.direction,
            NativeFlag::Overflow => self.overflow,
        }
    }

    pub fn with(self, flag: NativeFlag) -> (res: Self)
        ensures
            res == self.adding(flag),
    {
        let mut res = self;
        match flag {
            NativeFlag::Carry => {
                res.carry = true;
            },
            NativeFlag::Parity => {
                res.parity = true;
            },
            NativeFlag::AuxCarry => {
                res.aux_carry = true;
            },
            NativeFlag::Zero => {
                res.zero = true;
            },
            NativeFlag::Sign => {
                res.sign = true;
            },
            NativeFlag::Trap => {
                res.trap = true;
            },
            NativeFlag::InterruptEnable => {
                res.interrupt_enable = true;
            },
            NativeFlag::Direction => {
                res.direction = true;
            },
            NativeFlag::Overflow => {
                res.overflow = true;
            },
        }
        res
    }

    pub fn is_empty(&self) -> (res: bool)
        ensures
            res == (*self == FlagSet::none()),
    {
        !(self.carry || self.parity || self.aux_carry || self.zero || self.sign || self.trap || self.interrupt_enable || self.direction || self.overflow)
    }

    pub fn intersection(&self, other: &Self) -> (res: Self)
        ensures
            res == self.both(*other),
    {
        FlagSet {
            carry: self.carry && other.carry,
            parity: self.parity && other.parity,
            aux_carry: self.aux_carry && other.aux_carry,
            zero: self.zero && other.zero,
            sign: self.sign && other.sign,
            trap: self.trap && other.trap,
            interrupt_enable: self.interrupt_enable && other.interrupt_enable,
            direction: self.direction && other.direction,
            overflow: self.overflow && other.overflow,
        }
    }

    pub fn union_with(&self, other: &Self) -> (res: Self)
        ensures
            res == self.either(*other),
    {
        FlagSet {
            carry: self.carry || other.carry,
            parity: self.parity || other.parity,
            aux_carry: self.aux_carry || other.aux_carry,
            zero: self.zero || other.zero,
            sign: self.sign || other.sign,
            trap: self.trap || other.trap,
            interrupt_enable: self.interrupt_enable || other.interrupt_enable,
            direction: self.direction || other.direction,
            overflow: self.overflow || other.overflow,
        }
    }

    pub fn difference(&self, other: &Self) -> (res: Self)
        ensures
            res == self.without(*other),
    {
        FlagSet {
            carry: self.carry && !other.carry,
            parity: self.parity && !other.parity,
            aux_carry: self.aux_carry && !other.aux_carry,
            zero: self.zero && !other.zero,
            sign: self.sign && !other.sign,
            trap: self.trap && !other.trap,
            interrupt_enable: self.interrupt_enable && !other.interrupt_enable,
            direction: self.direction && !other.direction,
            overflow: self.overflow && !other.overflow,
        }
    }
}

/// Two sets with the same flags are the same set.
pub proof fn lemma_flag_sets_equal(a: FlagSet, b: FlagSet)
    requires
        forall|f: NativeFlag| a.has(f) == b.has(f),
    ensures
        a == b,
{
    assert(a.has(NativeFlag::Carry) == b.has(NativeFlag::Carry));
    assert(a.has(NativeFlag::Parity) == b.has(NativeFlag::Parity));
    assert(a.has(NativeFlag::AuxCarry) == b.has(NativeFlag::AuxCarry));
    assert(a.has(NativeFlag::Zero) == b.has(NativeFlag::Zero));
    assert(a.has(NativeFlag::Sign) == b.has(NativeFlag::Sign));
    assert(a.has(NativeFlag::Trap) == b.has(NativeFlag::Trap));
    assert(a.has(NativeFlag::InterruptEnable) == b.has(NativeFlag::InterruptEnable));
    assert(a.has(NativeFlag::Direction) == b.has(NativeFlag::Direction));
    assert(a.has(NativeFlag::Overflow) == b.has(NativeFlag::Overflow));
}

/// The identity of a synthetic function.
#[derive(Clone, Copy, Debug, PartialEq, Eq, Structural)]
pub struct SyntheticFunctionId {
    pub id: usize,
}

/// Variable numbers are local to their owning synthetic function.
#[derive(Clone, Copy, Debug, PartialEq, Eq, Structural)]
pub struct VariableId {
    pub owner: SyntheticFunctionId,
    pub id: usize,
}

#[derive(Clone, Copy, Debug, PartialEq, Eq, Structural)]
pub enum Parameter {
    Register(Register),
    /// Eight bytes aligned relative to the native entry stack pointer.
    Stack { offset: i64, size: usize },
}

#[derive(Clone, Copy, Debug, PartialEq, Eq, Structural)]
pub enum VariableType {
    Bool,
}

#[derive(Clone, Copy, Debug, PartialEq, Eq, Structural)]
pub enum IRBinOpKind {
    Add,
    Sub,
    Mul,
    Shl,
    Shr,
    And,
    Or,
    Eq,
    SignedGt,
    UnsignedLt,
}

#[allow(inconsistent_fields)]
#[derive(Debug)]
pub enum IRExpr {
    BinOp { kind: IRBinOpKind, lhs: Box<IRExpr>, rhs: Box<IRExpr> },
    Deref { address: Box<IRExpr>, size: usize },
    ExtractBytes { value: Box<IRExpr>, offset: usize, size: usize },
    ZeroExtend { value: Box<IRExpr>, size: usize },
    SignExtend { value: Box<IRExpr>, size: usize },
    Reg(Register),
    Flag(NativeFlag),
    /// A byte range at a fixed offset from the entry stack pointer.
    Stack { offset: i64, size: usize },
    CU8(u8),
    CU32(u32),
    CU64(u64),
    Variable(VariableId),
    Bool(bool),
    Not(Box<IRExpr>),
}

impl Clone for IRExpr {
    fn clone(&self) -> (res: Self)
        ensures
            res == *self,
        decreases self,
    {
        match self {
            IRExpr::BinOp { kind, lhs, rhs } => IRExpr::BinOp {
                kind: *kind,
                lhs: Box::new((**lhs).clone()),
                rhs: Box::new((**rhs).clone()),
            },
            IRExpr::Deref { address, size } => IRExpr::Deref {
                address: Box::new((**address).clone()),
                size: *size,
            },
            IRExpr::ExtractBytes { value, offset, size } => IRExpr::ExtractBytes {
                value: Box::new((**value).clone()),
                offset: *offset,
                size: *size,
            },
            IRExpr::ZeroExtend { value, size } => IRExpr::ZeroExtend {
                value: Box::new((**value).clone()),
                size: *size,
            },
            IRExpr::SignExtend { value, size } => IRExpr::SignExtend {
                value: Box::new((**value).clone()),
                size: *size,
            },
            IRExpr::Reg(register) => IRExpr::Reg(*register),
            IRExpr::Flag(flag) => IRExpr::Flag(*flag),
            IRExpr::Stack { offset, size } => IRExpr::Stack { offset: *offset, size: *size },
            IRExpr::CU8(value) => IRExpr::CU8(*value),
            IRExpr::CU32(value) => IRExpr::CU32(*value),
            IRExpr::CU64(value) => IRExpr::CU64(*value),
            IRExpr::Variable(variable) => IRExpr::Variable(*variable),
            IRExpr::Bool(value) => IRExpr::Bool(*value),
            IRExpr::Not(inner) => IRExpr::Not(Box::new((**inner).clone())),
        }
    }
}

impl IRExpr {
    /// Structural equality.
    pub fn same(&self, other: &Self) -> (res: bool)
        ensures
            res == (*self == *other),
        decreases self,
    {
        match (self, other) {
            (IRExpr::BinOp { kind, lhs, rhs }, IRExpr::BinOp {
                kind: kind2,
                lhs: lhs2,
                rhs: rhs2,
            }) => *kind == *kind2 && lhs.same(lhs2) && rhs.same(rhs2),
            (IRExpr::Deref { address, size }, IRExpr::Deref {
                address: address2,
                size: size2,
            }) => address.same(address2) && *size == *size2,
            (IRExpr::ExtractBytes { value, offset, size }, IRExpr::ExtractBytes {
                value: value2,
                offset: offset2,
                size: size2,
            }) => value.same(value2) && *offset == *offset2 && *size == *size2,
            (IRExpr::ZeroExtend { value, size }, IRExpr::ZeroExtend {
                value: value2,
                size: size2,
            }) => value.same(value2) && *size == *size2,
            (IRExpr::SignExtend { value, size }, IRExpr::SignExtend {
                value: value2,
                size: size2,
            }) => value.same(value2) && *size == *size2,
            (IRExpr::Reg(register), IRExpr::Reg(register2)) => *register == *register2,
            (IRExpr::Flag(flag), IRExpr::Flag(flag2)) => *flag == *flag2,
            (IRExpr::Stack { offset, size }, IRExpr::Stack {
                offset: offset2,
                size: size2,
            }) => *offset == *offset2 && *size == *size2,
            (IRExpr::CU8(value), IRExpr::CU8(value2)) => *value == *value2,
            (IRExpr::CU32(value), IRExpr::CU32(value2)) => *value == *value2,
            (IRExpr::CU64(value), IRExpr::CU64(value2)) => *value == *value2,
            (IRExpr::Variable(variable), IRExpr::Variable(variable2)) => *variable == *variable2,
            (IRExpr::Bool(value), IRExpr::Bool(value2)) => *value == *value2,
            (IRExpr::Not(inner), IRExpr::Not(inner2)) => inner.same(inner2),
            _ => false,
        }
    }
}

impl PartialEq for IRExpr {
    fn eq(&self, other: &Self) -> (res: bool) {
        self.same(other)
    }
}

impl Eq for IRExpr {

}

impl vstd::std_specs::cmp::PartialEqSpecImpl for IRExpr {
    open spec fn obeys_eq_spec() -> bool {
        true
    }

    open spec fn eq_spec(&self, other: &Self) -> bool {
        *self == *other
    }
}

#[derive(Debug)]
pub enum IRInst {
    Assign { dest: IRExpr, src: IRExpr },
    SetFlagsFrom { flags: FlagSet, expr: IRExpr },
    ClearFlags { flags: FlagSet },
    InvalidateFlags { flags: FlagSet },
    Return(Option<IRExpr>),
    DeclareVariable { variable: VariableId, ty: VariableType },
    AssignVariable { variable: VariableId, value: IRExpr },
    /// Each arm is a terminal transfer: a synthetic call, jump, or end.
    If { condition: IRExpr, then_branch: Box<IRInst>, else_branch: Box<IRInst> },
    /// Tail call into a shared synthetic function; the caller does not resume.
    CallSynthetic { function: SyntheticFunctionId, arguments: Vec<IRExpr> },
    /// A jump outside the locally lifted function.
    Jump(IRExpr),
    /// The source ends without another instruction.
    End,
}

/// An instruction, with sequences in place of vectors.
pub enum InstModel {
    Assign { dest: IRExpr, src: IRExpr },
    SetFlagsFrom { flags: FlagSet, expr: IRExpr },
    ClearFlags { flags: FlagSet },
    InvalidateFlags { flags: FlagSet },
    Return(Option<IRExpr>),
    DeclareVariable { variable: VariableId, ty: VariableType },
    AssignVariable { variable: VariableId, value: IRExpr },
    If { condition: IRExpr, then_branch: Box<InstModel>, else_branch: Box<InstModel> },
    CallSynthetic { function: SyntheticFunctionId, arguments: Seq<IRExpr> },
    Jump(IRExpr),
    End,
}

impl IRInst {
    /// The value behind the vectors.
    pub open spec fn model(self) -> InstModel
        decreases self,
    {
        match self {
            IRInst::Assign { dest, src } => InstModel::Assign { dest, src },
            IRInst::SetFlagsFrom { flags, expr } => InstModel::SetFlagsFrom { flags, expr },
            IRInst::ClearFlags { flags } => InstModel::ClearFlags { flags },
            IRInst::InvalidateFlags { flags } => InstModel::InvalidateFlags { flags },
            IRInst::Return(value) => InstModel::Return(value),
            IRInst::DeclareVariable { variable, ty } => InstModel::DeclareVariable { variable, ty },
            IRInst::AssignVariable {
                variable,
                value,
            } => InstModel::AssignVariable { variable, value },
            IRInst::If { condition, then_branch, else_branch } => InstModel::If {
                condition,
                then_branch: Box::new(then_branch.model()),
                else_branch: Box::new(else_branch.model()),
            },
            IRInst::CallSynthetic { function, arguments } => InstModel::CallSynthetic {
                function,
                arguments: arguments@,
            },
            IRInst::Jump(target) => InstModel::Jump(target),
            IRInst::End => InstModel::End,
        }
    }
}

pub open spec fn body_models(body: Seq<(usize, IRInst)>) -> Seq<(usize, InstModel)> {
    body.map_values(|item: (usize, IRInst)| (item.0, item.1.model()))
}

pub fn clone_expressions(expressions: &Vec<IRExpr>) -> (res: Vec<IRExpr>)
    ensures
        res@ == expressions@,
{
    let mut res: Vec<IRExpr> = Vec::new();
    let mut i: usize = 0;
    while i < expressions.len()
        invariant
            i <= expressions@.len(),
            res@ == expressions@.subrange(0, i as int),
        decreases expressions@.len() - i,
    {
        res.push(expressions[i].clone());
        i = i + 1;
        assert(res@ =~= expressions@.subrange(0, i as int));
    }
    assert(res@ =~= expressions@);
    res
}

impl Clone for IRInst {
    fn clone(&self) -> (res: Self)
        ensures
            res.model() == self.model(),
        decreases self,
    {
        match self {
            IRInst::Assign { dest, src } => IRInst::Assign { dest: dest.clone(), src: src.clone() },
            IRInst::SetFlagsFrom { flags, expr } => IRInst::SetFlagsFrom {
                flags: *flags,
                expr: expr.clone(),
            },
            IRInst::ClearFlags { flags } => IRInst::ClearFlags { flags: *flags },
            IRInst::InvalidateFlags { flags } => IRInst::InvalidateFlags { flags: *flags },
            IRInst::Return(value) => IRInst::Return(match value {
                Some(inner) => Some(inner.clone()),
                None => None,
            }),
            IRInst::DeclareVariable { variable, ty } => IRInst::DeclareVariable {
                variable: *variable,
                ty: *ty,
            },
            IRInst::AssignVariable { variable, value } => IRInst::AssignVariable {
                variable: *variable,
                value: value.clone(),
            },
            IRInst::If { condition, then_branch, else_branch } => IRInst::If {
                condition: condition.clone(),
                then_branch: Box::new((**then_branch).clone()),
                else_branch: Box::new((**else_branch).clone()),
            },
            IRInst::CallSynthetic { function, arguments } => IRInst::CallSynthetic {
                function: *function,
                arguments: clone_expressions(arguments),
            },
            IRInst::Jump(target) => IRInst::Jump(target.clone()),
            IRInst::End => IRInst::End,
        }
    }
}

/// One shared partition lifted into a synthetic function.
#[derive(Debug)]
pub struct SyntheticFunction {
    pub entry_offset: usize,
    /// Register aliases whose low bytes are used by this function or a callee.
    pub parameters: Vec<Parameter>,
    /// Flags read in this body before this body defines them.
    pub external_flags: FlagSet,
    pub body: Vec<(usize, IRInst)>,
}

pub struct FunctionModel {
    pub entry_offset: usize,
    pub parameters: Seq<Parameter>,
    pub external_flags: FlagSet,
    pub body: Seq<(usize, InstModel)>,
}

impl SyntheticFunction {
    pub open spec fn model(self) -> FunctionModel {
        FunctionModel {
            entry_offset: self.entry_offset,
            parameters: self.parameters@,
            external_flags: self.external_flags,
            body: body_models(self.body@),
        }
    }
}

pub open spec fn function_models(functions: Seq<SyntheticFunction>) -> Seq<FunctionModel> {
    functions.map_values(|f: SyntheticFunction| f.model())
}

pub struct Program {
    pub entry_address: usize,
    pub entry: Option<SyntheticFunctionId>,
    /// The number of bytes used of each eight-byte stack cell.
    pub stack_widths: Table<i64, usize>,
    pub functions: Vec<SyntheticFunction>,
}

pub struct ProgramModel {
    pub entry_address: usize,
    pub entry: Option<SyntheticFunctionId>,
    pub stack_widths: Map<i64, usize>,
    pub functions: Seq<FunctionModel>,
}

impl Program {
    pub open spec fn model(self) -> ProgramModel {
        ProgramModel {
            entry_address: self.entry_address,
            entry: self.entry,
            stack_widths: self.stack_widths@,
            functions: function_models(self.functions@),
        }
    }
}

/// Whether every call in an instruction names one of `count` functions.
pub open spec fn calls_within(instr: InstModel, count: int) -> bool
    decreases instr,
{
    match instr {
        InstModel::CallSynthetic { function, .. } => function.id < count,
        InstModel::If { then_branch, else_branch, .. } => calls_within(*then_branch, count)
            && calls_within(*else_branch, count),
        _ => true,
    }
}

pub open spec fn body_calls_within(body: Seq<(usize, InstModel)>, count: int) -> bool {
    forall|i: int| 0 <= i < body.len() ==> calls_within((#[trigger] body[i]).1, count)
}

/// Whether every call of every function names a function.
pub open spec fn functions_linked(functions: Seq<FunctionModel>, count: int) -> bool {
    forall|i: int|
        0 <= i < functions.len() ==> body_calls_within((#[trigger] functions[i]).body, count)
}

/// Whether the entry and every call name a function of the program.
pub open spec fn is_linked(program: ProgramModel) -> bool {
    &&& functions_linked(program.functions, program.functions.len() as int)
    &&& program.entry matches Some(entry) ==> entry.id < program.functions.len()
}

} // verus!
