//! The tier 0 program: machine instructions with their flags and stack
//! accesses made explicit.
use crate::x86::Register;
use vstd::prelude::*;

verus! {

#[derive(Clone, Copy, Debug, PartialEq, Eq, Hash, Structural)]
pub enum NativeFlag {
    Carry,
    Parity,
    AuxCarry,
    Zero,
    Sign,
    Trap,
    InterruptEnable,
    Direction,
    Overflow,
}

/// A set of flags.
#[derive(Clone, Copy, Debug, PartialEq, Eq, Structural)]
pub struct FlagSet {
    pub carry: bool,
    pub parity: bool,
    pub aux_carry: bool,
    pub zero: bool,
    pub sign: bool,
    pub trap: bool,
    pub interrupt_enable: bool,
    pub direction: bool,
    pub overflow: bool,
}

impl FlagSet {
    pub open spec fn has(self, flag: NativeFlag) -> bool {
        match flag {
            NativeFlag::Carry => self.carry,
            NativeFlag::Parity => self.parity,
            NativeFlag::AuxCarry => self.aux_carry,
            NativeFlag::Zero => self.zero,
            NativeFlag::Sign => self.sign,
            NativeFlag::Trap => self.trap,
            NativeFlag::InterruptEnable => self.interrupt_enable,
            NativeFlag::Direction => self.direction,
            NativeFlag::Overflow => self.overflow,
        }
    }

    /// The set with the flags for which the rule holds.
    pub open spec fn such_that(rule: spec_fn(NativeFlag) -> bool) -> FlagSet {
        FlagSet {
            carry: rule(NativeFlag::Carry),
            parity: rule(NativeFlag::Parity),
            aux_carry: rule(NativeFlag::AuxCarry),
            zero: rule(NativeFlag::Zero),
            sign: rule(NativeFlag::Sign),
            trap: rule(NativeFlag::Trap),
            interrupt_enable: rule(NativeFlag::InterruptEnable),
            direction: rule(NativeFlag::Direction),
            overflow: rule(NativeFlag::Overflow),
        }
    }

    pub open spec fn none() -> FlagSet {
        FlagSet::such_that(|f: NativeFlag| false)
    }

    pub open spec fn adding(self, flag: NativeFlag) -> FlagSet {
        FlagSet::such_that(|f: NativeFlag| f == flag || self.has(f))
    }

    pub open spec fn both(self, other: FlagSet) -> FlagSet {
        FlagSet::such_that(|f: NativeFlag| self.has(f) && other.has(f))
    }

    pub open spec fn either(self, other: FlagSet) -> FlagSet {
        FlagSet::such_that(|f: NativeFlag| self.has(f) || other.has(f))
    }

    pub open spec fn without(self, other: FlagSet) -> FlagSet {
        FlagSet::such_that(|f: NativeFlag| self.has(f) && !other.has(f))
    }

    pub fn new() -> (res: Self)
        ensures
            res == FlagSet::none(),
    {
        FlagSet {
            carry: false,
            parity: false,
            aux_carry: false,
            zero: false,
            sign: false,
            trap: false,
            interrupt_enable: false,
            direction: false,
            overflow: false,
        }
    }

    pub fn contains(&self, flag: NativeFlag) -> (res: bool)
        ensures
            res == self.has(flag),
    {
        match flag {
            NativeFlag::Carry => self.carry,
            NativeFlag::Parity => self.parity,
            NativeFlag::AuxCarry => self.aux_carry,
            NativeFlag::Zero => self.zero,
            NativeFlag::Sign => self.sign,
            NativeFlag::Trap => self.trap,
            NativeFlag::InterruptEnable => self.interrupt_enable,
            NativeFlag::Direction => self.direction,
            NativeFlag::Overflow => self.overflow,
        }
    }

    pub fn with(self, flag: NativeFlag) -> (res: Self)
        ensures
            res == self.adding(flag),
    {
        let mut res = self;
        match flag {
            NativeFlag::Carry => {
                res.carry = true;
            },
            NativeFlag::Parity => {
                res.parity = true;
            },
            NativeFlag::AuxCarry => {
                res.aux_carry = true;
            },
            NativeFlag::Zero => {
                res.zero = true;
            },
            NativeFlag::Sign => {
                res.sign = true;
            },
            NativeFlag::Trap => {
                res.trap = true;
            },
            NativeFlag::InterruptEnable => {
                res.interrupt_enable = true;
            },
            NativeFlag::Direction => {
                res.direction = true;
            },
            NativeFlag::Overflow => {
                res.overflow = true;
            },
        }
        res
    }

    pub fn is_empty(&self) -> (res: bool)
        ensures
            res == (*self == FlagSet::none()),
    {
        !(self.carry || self.parity || self.aux_carry || self.zero || self.sign || self.trap || self.interrupt_enable || self.direction || self.overflow)
    }

    pub fn intersection(&self, other: &Self) -> (res: Self)
        ensures
            res == self.both(*other),
    {
        FlagSet {
            carry: self.carry && other.carry,
            parity: self.parity && other.parity,
            aux_carry: self.aux_carry && other.aux_carry,
            zero: self.zero && other.zero,
            sign: self.sign && other.sign,
            trap: self.trap && other.trap,
            interrupt_enable: self.interrupt_enable && other.interrupt_enable,
            direction: self.direction && other.direction,
            overflow: self.overflow && other.overflow,
        }
    }

    pub fn union_with(&self, other: &Self) -> (res: Self)
        ensures
            res == self.either(*other),
    {
        FlagSet {
            carry: self.carry || other.carry,
            parity: self.parity || other.parity,
            aux_carry: self.aux_carry || other.aux_carry,
            zero: self.zero || other.zero,
            sign: self.sign || other.sign,
            trap: self.trap || other.trap,
            interrupt_enable: self.interrupt_enable || other.interrupt_enable,
            direction: self.direction || other.direction,
            overflow: self.overflow || other.overflow,
        }
    }

    pub fn difference(&self, other: &Self) -> (res: Self)
        ensures
            res == self.without(*other),
    {
        FlagSet {
            carry: self.carry && !other.carry,
            parity: self.parity && !other.parity,
            aux_carry: self.aux_carry && !other.aux_carry,
            zero: self.zero && !other.zero,
            sign: self.sign && !other.sign,
            trap: self.trap && !other.trap,
            interrupt_enable: self.interrupt_enable && !other.interrupt_enable,
            direction: self.direction && !other.direction,
            overflow: self.overflow && !other.overflow,
        }
    }
}

/// Two sets with the same flags are the same set.
pub proof fn lemma_flag_sets_equal(a: FlagSet, b: FlagSet)
    requires
        forall|f: NativeFlag| a.has(f) == b.has(f),
    ensures
        a == b,
{
    assert(a.has(NativeFlag::Carry) == b.has(NativeFlag::Carry));
    assert(a.has(NativeFlag::Parity) == b.has(NativeFlag::Parity));
    assert(a.has(NativeFlag::AuxCarry) == b.has(NativeFlag::AuxCarry));
    assert(a.has(NativeFlag::Zero) == b.has(NativeFlag::Zero));
    assert(a.has(NativeFlag::Sign) == b.has(NativeFlag::Sign));
    assert(a.has(NativeFlag::Trap) == b.has(NativeFlag::Trap));
    assert(a.has(NativeFlag::InterruptEnable) == b.has(NativeFlag::InterruptEnable));
    assert(a.has(NativeFlag::Direction) == b.has(NativeFlag::Direction));
    assert(a.has(NativeFlag::Overflow) == b.has(NativeFlag::Overflow));
}

#[derive(Clone, Copy, Debug, PartialEq, Eq, Structural)]
pub enum IRBinOpKind {
    Add,
    Sub,
    /// Low product bits at the operands' width (signedness-independent).
    Mul,
    Shl,
    /// Logical right shift.
    Shr,
    And,
    Or,
    Eq,
    SignedGt,
}

#[allow(inconsistent_fields)]
#[derive(Debug)]
pub enum IRExpr {
    BinOp { kind: IRBinOpKind, lhs: Box<IRExpr>, rhs: Box<IRExpr> },
    Deref { address: Box<IRExpr>, size: usize },
    ExtractBytes { value: Box<IRExpr>, offset: usize, size: usize },
    ZeroExtend { value: Box<IRExpr>, size: usize },
    SignExtend { value: Box<IRExpr>, size: usize },
    Reg(Register),
    Flag(NativeFlag),
    /// A byte range at a fixed offset from the entry stack pointer. Tier 2
    /// turns this into local values before source-like control flow is built.
    Stack { offset: i64, size: usize },
    CU8(u8),
    CU32(u32),
    CU64(u64),
}

impl Clone for IRExpr {
    fn clone(&self) -> (res: Self)
        ensures
            res == *self,
        decreases self,
    {
        match self {
            IRExpr::BinOp { kind, lhs, rhs } => IRExpr::BinOp {
                kind: *kind,
                lhs: Box::new((**lhs).clone()),
                rhs: Box::new((**rhs).clone()),
            },
            IRExpr::Deref { address, size } => IRExpr::Deref {
                address: Box::new((**address).clone()),
                size: *size,
            },
            IRExpr::ExtractBytes { value, offset, size } => IRExpr::ExtractBytes {
                value: Box::new((**value).clone()),
                offset: *offset,
                size: *size,
            },
            IRExpr::ZeroExtend { value, size } => IRExpr::ZeroExtend {
                value: Box::new((**value).clone()),
                size: *size,
            },
            IRExpr::SignExtend { value, size } => IRExpr::SignExtend {
                value: Box::new((**value).clone()),
                size: *size,
            },
            IRExpr::Reg(register) => IRExpr::Reg(*register),
            IRExpr::Flag(flag) => IRExpr::Flag(*flag),
            IRExpr::Stack { offset, size } => IRExpr::Stack { offset: *offset, size: *size },
            IRExpr::CU8(value) => IRExpr::CU8(*value),
            IRExpr::CU32(value) => IRExpr::CU32(*value),
            IRExpr::CU64(value) => IRExpr::CU64(*value),
        }
    }
}

impl IRExpr {
    /// Structural equality.
    pub fn same(&self, other: &Self) -> (res: bool)
        ensures
            res == (*self == *other),
        decreases self,
    {
        match (self, other) {
            (IRExpr::BinOp { kind, lhs, rhs }, IRExpr::BinOp {
                kind: kind2,
                lhs: lhs2,
                rhs: rhs2,
            }) => *kind == *kind2 && lhs.same(lhs2) && rhs.same(rhs2),
            (IRExpr::Deref { address, size }, IRExpr::Deref {
                address: address2,
                size: size2,
            }) => address.same(address2) && *size == *size2,
            (IRExpr::ExtractBytes { value, offset, size }, IRExpr::ExtractBytes {
                value: value2,
                offset: offset2,
                size: size2,
            }) => value.same(value2) && *offset == *offset2 && *size == *size2,
            (IRExpr::ZeroExtend { value, size }, IRExpr::ZeroExtend {
                value: value2,
                size: size2,
            }) => value.same(value2) && *size == *size2,
            (IRExpr::SignExtend { value, size }, IRExpr::SignExtend {
                value: value2,
                size: size2,
            }) => value.same(value2) && *size == *size2,
            (IRExpr::Reg(register), IRExpr::Reg(register2)) => *register == *register2,
            (IRExpr::Flag(flag), IRExpr::Flag(flag2)) => *flag == *flag2,
            (IRExpr::Stack { offset, size }, IRExpr::Stack {
                offset: offset2,
                size: size2,
            }) => *offset == *offset2 && *size == *size2,
            (IRExpr::CU8(value), IRExpr::CU8(value2)) => *value == *value2,
            (IRExpr::CU32(value), IRExpr::CU32(value2)) => *value == *value2,
            (IRExpr::CU64(value), IRExpr::CU64(value2)) => *value == *value2,
            _ => false,
        }
    }
}

impl PartialEq for IRExpr {
    fn eq(&self, other: &Self) -> (res: bool) {
        self.same(other)
    }
}

impl Eq for IRExpr {

}

impl vstd::std_specs::cmp::PartialEqSpecImpl for IRExpr {
    open spec fn obeys_eq_spec() -> bool {
        true
    }

    open spec fn eq_spec(&self, other: &Self) -> bool {
        *self == *other
    }
}

#[derive(Debug)]
pub enum IRInst {
    Asgn { dest: IRExpr, src: IRExpr },
    If(IRExpr, Box<IRInst>),
    Jmp(IRExpr),
    Ret(Option<IRExpr>),
    SetFlagsFrom(FlagSet, IRExpr),
    ClearFlags(FlagSet),
    /// Architecturally undefined flags; reading one must remain unsupported.
    InvalidateFlags(FlagSet),
}

impl Clone for IRInst {
    fn clone(&self) -> (res: Self)
        ensures
            res == *self,
        decreases self,
    {
        match self {
            IRInst::Asgn { dest, src } => IRInst::Asgn { dest: dest.clone(), src: src.clone() },
            IRInst::If(condition, inner) => IRInst::If(
                condition.clone(),
                Box::new((**inner).clone()),
            ),
            IRInst::Jmp(target) => IRInst::Jmp(target.clone()),
            IRInst::Ret(value) => IRInst::Ret(match value {
                Some(inner) => Some(inner.clone()),
                None => None,
            }),
            IRInst::SetFlagsFrom(flags, expr) => IRInst::SetFlagsFrom(*flags, expr.clone()),
            IRInst::ClearFlags(flags) => IRInst::ClearFlags(*flags),
            IRInst::InvalidateFlags(flags) => IRInst::InvalidateFlags(*flags),
        }
    }
}

#[derive(Debug)]
pub struct Program {
    pub entry_address: usize,
    pub instructions: Vec<(usize, IRInst)>,
}

/// A program, with a sequence in place of the vector.
pub struct ProgramModel {
    pub entry_address: usize,
    pub instructions: Seq<(usize, IRInst)>,
}

impl Program {
    pub open spec fn model(self) -> ProgramModel {
        ProgramModel { entry_address: self.entry_address, instructions: self.instructions@ }
    }
}

} // verus!
