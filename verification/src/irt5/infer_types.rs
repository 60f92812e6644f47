//! Infer integer and pointer slots only from operations with decisive shapes.
//! Copies and synthetic calls carry that evidence across slots of equal width.
use super::ir::{
    body_models, function_models, models, FunctionModel, IRBinOpKind, IRExpr, IRInst, InstModel,
    LoopCondition, Parameter, Program, ProgramModel, SyntheticFunction, SyntheticFunctionId,
    VariableId, VariableType,
};
use crate::rounds::{
    grows, is_end, lemma_grows_on, lemma_rank_bound, lemma_round_raises, rank, same_beyond,
};
use crate::table::{Key, Table};
use vstd::prelude::*;

verus! {

/// A variable, or an argument of a function.
#[derive(Clone, Copy, Debug, PartialEq, Eq, Structural)]
pub enum Slot {
    Variable(VariableId),
    Argument(SyntheticFunctionId, usize),
}

impl Key for Slot {
    fn equal(&self, other: &Self) -> (res: bool) {
        *self == *other
    }
}

/// What is known of the use of a slot as a number or an address.
#[derive(Clone, Copy, Debug, PartialEq, Eq, Structural)]
pub struct Evidence {
    pub integer: bool,
    pub unsigned: bool,
    pub address: bool,
}

/// Whether a slot is dereferenced, and whether it is used otherwise.
#[derive(Clone, Copy, Debug, PartialEq, Eq, Structural)]
pub struct PointerUse {
    pub dereferenced: bool,
    pub other: bool,
}

/// What is known of the type that a slot points to.
#[derive(Debug)]
pub struct PointeeEvidence {
    pub candidate: Option<VariableType>,
    pub conflicting: bool,
}

pub open spec fn no_evidence() -> Evidence {
    Evidence { integer: false, unsigned: false, address: false }
}

pub open spec fn no_use() -> PointerUse {
    PointerUse { dereferenced: false, other: false }
}

pub open spec fn no_pointee() -> PointeeEvidence {
    PointeeEvidence { candidate: None, conflicting: false }
}

pub open spec fn evidence_at(found: Map<Slot, Evidence>, slot: Slot) -> Evidence {
    if found.dom().contains(slot) {
        found[slot]
    } else {
        no_evidence()
    }
}

pub open spec fn use_at(uses: Map<Slot, PointerUse>, slot: Slot) -> PointerUse {
    if uses.dom().contains(slot) {
        uses[slot]
    } else {
        no_use()
    }
}

pub open spec fn pointee_at(pointees: Map<Slot, PointeeEvidence>, slot: Slot) -> PointeeEvidence {
    if pointees.dom().contains(slot) {
        pointees[slot]
    } else {
        no_pointee()
    }
}

fn find_evidence(found: &Table<Slot, Evidence>, slot: Slot) -> (res: Evidence)
    ensures
        res == evidence_at(found@, slot),
{
    match found.get(slot) {
        Some(evidence) => *evidence,
        None => Evidence { integer: false, unsigned: false, address: false },
    }
}

fn find_use(uses: &Table<Slot, PointerUse>, slot: Slot) -> (res: PointerUse)
    ensures
        res == use_at(uses@, slot),
{
    match uses.get(slot) {
        Some(found) => *found,
        None => PointerUse { dereferenced: false, other: false },
    }
}

impl PointeeEvidence {
    /// What two paths know together: a type on which they agree, or a conflict.
    pub open spec fn merged(self, other: Self) -> Self {
        if self.conflicting || other.conflicting {
            PointeeEvidence { candidate: None, conflicting: true }
        } else {
            match (self.candidate, other.candidate) {
                (_, None) => self,
                (None, Some(_)) => other,
                (Some(a), Some(b)) => if a == b {
                    self
                } else {
                    PointeeEvidence { candidate: None, conflicting: true }
                },
            }
        }
    }

    fn copied(&self) -> (res: Self)
        ensures
            res == *self,
    {
        PointeeEvidence {
            candidate: match &self.candidate {
                Some(ty) => Some(ty.clone()),
                None => None,
            },
            conflicting: self.conflicting,
        }
    }

    fn same(&self, other: &Self) -> (res: bool)
        ensures
            res == (*self == *other),
    {
        self.conflicting == other.conflicting && match (&self.candidate, &other.candidate) {
            (Some(a), Some(b)) => a.same(b),
            (None, None) => true,
            _ => false,
        }
    }

    fn merge(&self, other: &Self) -> (res: Self)
        ensures
            res == self.merged(*other),
    {
        if self.conflicting || other.conflicting {
            return PointeeEvidence { candidate: None, conflicting: true };
        }
        match (&self.candidate, &other.candidate) {
            (_, None) => self.copied(),
            (None, Some(_)) => other.copied(),
            (Some(a), Some(b)) => if a.same(b) {
                self.copied()
            } else {
                PointeeEvidence { candidate: None, conflicting: true }
            },
        }
    }
}

/// Merging is commutative and idempotent.
pub proof fn law_pointees_merge(a: PointeeEvidence, b: PointeeEvidence)
    requires
        a.conflicting ==> a.candidate is None,
        b.conflicting ==> b.candidate is None,
    ensures
        a.merged(b) == b.merged(a),
        a.merged(a) == a,
        a.merged(b).merged(b) == a.merged(b),
{
}

fn find_pointee(pointees: &Table<Slot, PointeeEvidence>, slot: Slot) -> (res: PointeeEvidence)
    ensures
        res == pointee_at(pointees@, slot),
{
    match pointees.get(slot) {
        Some(found) => found.copied(),
        None => PointeeEvidence { candidate: None, conflicting: false },
    }
}

/// The slot that an expression is.
pub open spec fn slot_in(expr: IRExpr, owner: SyntheticFunctionId) -> Option<Slot> {
    match expr {
        IRExpr::Variable(variable) => Some(Slot::Variable(variable)),
        IRExpr::Argument(ordinal) => Some(Slot::Argument(owner, ordinal)),
        _ => None,
    }
}

fn direct_slot(expr: &IRExpr, owner: SyntheticFunctionId) -> (res: Option<Slot>)
    ensures
        res == slot_in(*expr, owner),
{
    match expr {
        IRExpr::Variable(variable) => Some(Slot::Variable(*variable)),
        IRExpr::Argument(ordinal) => Some(Slot::Argument(owner, *ordinal)),
        _ => None,
    }
}

pub open spec fn literal_width(expr: IRExpr) -> Option<usize> {
    match expr {
        IRExpr::CU8(_) => Some(1),
        IRExpr::CU32(_) => Some(4),
        IRExpr::CU64(_) => Some(8),
        _ => None,
    }
}

fn literal_size(expr: &IRExpr) -> (res: Option<usize>)
    ensures
        res == literal_width(*expr),
{
    match expr {
        IRExpr::CU8(_) => Some(1),
        IRExpr::CU32(_) => Some(4),
        IRExpr::CU64(_) => Some(8),
        _ => None,
    }
}

/// The width of a value that has no type yet, where an integer can have it.
pub open spec fn width_of(ty: VariableType) -> Option<usize> {
    match ty {
        VariableType::Unknown(Some(size)) => if size == 1 || size == 2 || size == 4 || size == 8 {
            Some(size)
        } else {
            None
        },
        _ => None,
    }
}

fn width(ty: &VariableType) -> (res: Option<usize>)
    ensures
        res == width_of(*ty),
{
    match ty {
        VariableType::Unknown(Some(size)) => if *size == 1 || *size == 2 || *size == 4 || *size
            == 8 {
            Some(*size)
        } else {
            None
        },
        _ => None,
    }
}

pub open spec fn slot_width(types: Map<Slot, VariableType>, slot: Slot) -> Option<usize> {
    if types.dom().contains(slot) {
        width_of(types[slot])
    } else {
        None
    }
}

fn find_width(types: &Table<Slot, VariableType>, slot: Slot) -> (res: Option<usize>)
    ensures
        res == slot_width(types@, slot),
{
    match types.get(slot) {
        Some(ty) => width(ty),
        None => None,
    }
}

/// The width of a scalar that a pointer can lead to.
pub open spec fn pointee_width_of(ty: VariableType) -> Option<usize> {
    match ty {
        VariableType::Bool => Some(1),
        VariableType::Integer(bits) => Some((bits / 8) as usize),
        VariableType::UnsignedInteger(bits) => Some((bits / 8) as usize),
        _ => None,
    }
}

fn pointee_width(ty: &VariableType) -> (res: Option<usize>)
    ensures
        res == pointee_width_of(*ty),
{
    match ty {
        VariableType::Bool => Some(1),
        VariableType::Integer(bits) => Some(*bits / 8),
        VariableType::UnsignedInteger(bits) => Some(*bits / 8),
        _ => None,
    }
}

/// The slot of a parameter of a function.
pub open spec fn formal_of(function: SyntheticFunctionId, parameter: Parameter) -> Slot {
    match parameter {
        Parameter::Argument { ordinal, .. } => Slot::Argument(function, ordinal),
        Parameter::Slot { variable, .. } => Slot::Variable(variable),
    }
}

fn formal(function: SyntheticFunctionId, parameter: &Parameter) -> (res: Slot)
    ensures
        res == formal_of(function, *parameter),
{
    match parameter {
        Parameter::Argument { ordinal, .. } => Slot::Argument(function, *ordinal),
        Parameter::Slot { variable, .. } => Slot::Variable(*variable),
    }
}

/// The slot that an argument of a call goes to.
pub open spec fn callee_slot(
    function: SyntheticFunctionId,
    functions: Seq<FunctionModel>,
    index: int,
) -> Option<Slot> {
    if function.id < functions.len() && 0 <= index < functions[function.id as int].parameters.len() {
        Some(formal_of(function, functions[function.id as int].parameters[index]))
    } else {
        None
    }
}

fn find_callee_slot(
    function: SyntheticFunctionId,
    functions: &Vec<SyntheticFunction>,
    index: usize,
) -> (res: Option<Slot>)
    ensures
        res == callee_slot(function, function_models(functions@), index as int),
{
    if function.id < functions.len() {
        assert(function_models(functions@)[function.id as int]
            == functions@[function.id as int].model());
        let parameters = &functions[function.id].parameters;
        if index < parameters.len() {
            return Some(formal(function, &parameters[index]));
        }
    }
    None
}

// ---------------------------------------------------------------------------
// Evidence

pub open spec fn marked_address(found: Map<Slot, Evidence>, slot: Option<Slot>) -> Map<
    Slot,
    Evidence,
> {
    match slot {
        Some(slot) => found.insert(slot, Evidence { address: true, ..evidence_at(found, slot) }),
        None => found,
    }
}

fn mark_address(found: &mut Table<Slot, Evidence>, slot: Option<Slot>)
    ensures
        final(found)@ == marked_address(old(found)@, slot),
{
    if let Some(slot) = slot {
        let before: Evidence = find_evidence(found, slot);
        found.insert(
            slot,
            Evidence { integer: before.integer, unsigned: before.unsigned, address: true },
        );
    }
}

/// The types with those of the declarations in an instruction.
pub open spec fn declared_with(
    instr: InstModel,
    types: Map<Slot, VariableType>,
) -> Map<Slot, VariableType>
    decreases instr,
{
    match instr {
        InstModel::DeclareVariable { variable, ty } => types.insert(Slot::Variable(variable), ty),
        InstModel::DeclareAndAssignVariable { variable, ty, .. } => types.insert(
            Slot::Variable(variable),
            ty,
        ),
        InstModel::If { then_branch, else_branch, .. } => declared_with_list(
            else_branch,
            declared_with_list(then_branch, types),
        ),
        InstModel::While { body, .. } => declared_with_body(body, types),
        _ => types,
    }
}

pub open spec fn declared_with_list(
    list: Seq<InstModel>,
    types: Map<Slot, VariableType>,
) -> Map<Slot, VariableType>
    decreases list,
{
    if list.len() == 0 {
        types
    } else {
        declared_with(list[list.len() - 1], declared_with_list(list.drop_last(), types))
    }
}

pub open spec fn declared_with_body(
    list: Seq<(usize, InstModel)>,
    types: Map<Slot, VariableType>,
) -> Map<Slot, VariableType>
    decreases list,
{
    if list.len() == 0 {
        types
    } else {
        declared_with(list[list.len() - 1].1, declared_with_body(list.drop_last(), types))
    }
}

fn declarations(instr: &IRInst, types: &mut Table<Slot, VariableType>)
    ensures
        final(types)@ == declared_with(instr.model(), old(types)@),
    decreases instr,
{
    match instr {
        IRInst::DeclareVariable { variable, ty } => {
            types.insert(Slot::Variable(*variable), ty.clone());
        },
        IRInst::DeclareAndAssignVariable { variable, ty, .. } => {
            types.insert(Slot::Variable(*variable), ty.clone());
        },
        IRInst::If { then_branch, else_branch, .. } => {
            declarations_list(then_branch, types);
            declarations_list(else_branch, types);
        },
        IRInst::While { body, .. } => {
            declarations_body(body, types);
        },
        _ => {},
    }
}

fn declarations_list(list: &Vec<IRInst>, types: &mut Table<Slot, VariableType>)
    ensures
        final(types)@ == declared_with_list(models(list@), old(types)@),
    decreases list,
{
    let ghost all = models(list@);
    let ghost start = types@;
    assert(all.subrange(0, 0) =~= Seq::empty());
    let mut i: usize = 0;
    while i < list.len()
        invariant
            i <= list@.len(),
            all == models(list@),
            types@ == declared_with_list(all.subrange(0, i as int), start),
        decreases list@.len() - i,
    {
        let ghost prefix = all.subrange(0, i + 1);
        assert(prefix.drop_last() =~= all.subrange(0, i as int));
        assert(decreases_to!(list => list@[i as int]));
        declarations(&list[i], types);
        i = i + 1;
    }
    assert(all.subrange(0, i as int) =~= all);
}

fn declarations_body(list: &Vec<(usize, IRInst)>, types: &mut Table<Slot, VariableType>)
    ensures
        final(types)@ == declared_with_body(body_models(list@), old(types)@),
    decreases list,
{
    let ghost all = body_models(list@);
    let ghost start = types@;
    assert(all.subrange(0, 0) =~= Seq::empty());
    let mut i: usize = 0;
    while i < list.len()
        invariant
            i <= list@.len(),
            all == body_models(list@),
            types@ == declared_with_body(all.subrange(0, i as int), start),
        decreases list@.len() - i,
    {
        let ghost prefix = all.subrange(0, i + 1);
        assert(prefix.drop_last() =~= all.subrange(0, i as int));
        assert(decreases_to!(list => list@[i as int]));
        declarations(&list[i].1, types);
        i = i + 1;
    }
    assert(all.subrange(0, i as int) =~= all);
}

/// The evidence of an expression that an address is made of.
pub open spec fn address_with(
    expr: IRExpr,
    found: Map<Slot, Evidence>,
    owner: SyntheticFunctionId,
) -> Map<Slot, Evidence>
    decreases expr,
{
    match expr {
        IRExpr::BinOp { lhs, rhs, .. } => address_with(
            *rhs,
            address_with(*lhs, found, owner),
            owner,
        ),
        IRExpr::Deref(address) => address_with(*address, found, owner),
        IRExpr::MemoryAddress { address, .. } => address_with(*address, found, owner),
        IRExpr::ElementAddress { base, index, .. } => address_with(
            *index,
            address_with(*base, found, owner),
            owner,
        ),
        IRExpr::Argument(_) => marked_address(found, slot_in(expr, owner)),
        IRExpr::Convert { value, .. } => address_with(*value, found, owner),
        IRExpr::Variable(_) => marked_address(found, slot_in(expr, owner)),
        IRExpr::Not(inner) => address_with(*inner, found, owner),
        _ => found,
    }
}

fn address_evidence(expr: &IRExpr, found: &mut Table<Slot, Evidence>, owner: SyntheticFunctionId)
    ensures
        final(found)@ == address_with(*expr, old(found)@, owner),
    decreases expr,
{
    match expr {
        IRExpr::BinOp { lhs, rhs, .. } => {
            address_evidence(lhs, found, owner);
            address_evidence(rhs, found, owner);
        },
        IRExpr::Deref(address) => {
            address_evidence(address, found, owner);
        },
        IRExpr::MemoryAddress { address, .. } => {
            address_evidence(address, found, owner);
        },
        IRExpr::ElementAddress { base, index, .. } => {
            address_evidence(base, found, owner);
            address_evidence(index, found, owner);
        },
        IRExpr::Argument(_) => {
            mark_address(found, direct_slot(expr, owner));
        },
        IRExpr::Convert { value, .. } => {
            address_evidence(value, found, owner);
        },
        IRExpr::Variable(_) => {
            mark_address(found, direct_slot(expr, owner));
        },
        IRExpr::Not(inner) => {
            address_evidence(inner, found, owner);
        },
        _ => {},
    }
}


/// The evidence with a slot that is an integer, where it has an integer's width.
pub open spec fn marked_integer(
    found: Map<Slot, Evidence>,
    slot: Option<Slot>,
    unsigned: bool,
    types: Map<Slot, VariableType>,
) -> Map<Slot, Evidence> {
    match slot {
        Some(slot) => if slot_width(types, slot) is Some {
            let before = evidence_at(found, slot);
            found.insert(
                slot,
                Evidence {
                    integer: true,
                    unsigned: before.unsigned || unsigned,
                    address: before.address,
                },
            )
        } else {
            found
        },
        None => found,
    }
}

fn mark_integer(
    found: &mut Table<Slot, Evidence>,
    slot: Option<Slot>,
    unsigned: bool,
    types: &Table<Slot, VariableType>,
)
    ensures
        final(found)@ == marked_integer(old(found)@, slot, unsigned, types@),
{
    if let Some(slot) = slot {
        if find_width(types, slot).is_some() {
            let before: Evidence = find_evidence(found, slot);
            found.insert(
                slot,
                Evidence {
                    integer: true,
                    unsigned: before.unsigned || unsigned,
                    address: before.address,
                },
            );
        }
    }
}

/// The evidence with a slot that is tested against a literal of its width.
pub open spec fn marked_literal(
    found: Map<Slot, Evidence>,
    slot: Option<Slot>,
    literal: IRExpr,
    types: Map<Slot, VariableType>,
) -> Map<Slot, Evidence> {
    match (slot, literal_width(literal)) {
        (Some(slot), Some(size)) => if slot_width(types, slot) == Some(size) {
            marked_integer(found, Some(slot), false, types)
        } else {
            found
        },
        _ => found,
    }
}

fn mark_literal(
    found: &mut Table<Slot, Evidence>,
    slot: Option<Slot>,
    literal: &IRExpr,
    types: &Table<Slot, VariableType>,
)
    ensures
        final(found)@ == marked_literal(old(found)@, slot, *literal, types@),
{
    if let (Some(slot), Some(size)) = (slot, literal_size(literal)) {
        if let Some(found_size) = find_width(types, slot) {
            if found_size == size {
                mark_integer(found, Some(slot), false, types);
            }
        }
    }
}

/// The evidence that an operation gives of its operands: shifts and unsigned
/// comparisons are of integers, and so is a test against a literal of the same
/// width.
pub open spec fn operand_evidence(
    kind: IRBinOpKind,
    lhs: IRExpr,
    rhs: IRExpr,
    found: Map<Slot, Evidence>,
    owner: SyntheticFunctionId,
    types: Map<Slot, VariableType>,
) -> Map<Slot, Evidence> {
    match kind {
        IRBinOpKind::Shl => marked_integer(
            marked_integer(found, slot_in(lhs, owner), false, types),
            slot_in(rhs, owner),
            false,
            types,
        ),
        IRBinOpKind::UnsignedLt | IRBinOpKind::UnsignedGe => marked_integer(
            marked_integer(found, slot_in(lhs, owner), true, types),
            slot_in(rhs, owner),
            true,
            types,
        ),
        IRBinOpKind::Eq | IRBinOpKind::Ne => marked_literal(
            marked_literal(found, slot_in(lhs, owner), rhs, types),
            slot_in(rhs, owner),
            lhs,
            types,
        ),
        _ => found,
    }
}

fn operands(
    kind: IRBinOpKind,
    lhs: &IRExpr,
    rhs: &IRExpr,
    found: &mut Table<Slot, Evidence>,
    owner: SyntheticFunctionId,
    types: &Table<Slot, VariableType>,
)
    ensures
        final(found)@ == operand_evidence(kind, *lhs, *rhs, old(found)@, owner, types@),
{
    match kind {
        IRBinOpKind::Shl => {
            mark_integer(found, direct_slot(lhs, owner), false, types);
            mark_integer(found, direct_slot(rhs, owner), false, types);
        },
        IRBinOpKind::UnsignedLt | IRBinOpKind::UnsignedGe => {
            mark_integer(found, direct_slot(lhs, owner), true, types);
            mark_integer(found, direct_slot(rhs, owner), true, types);
        },
        IRBinOpKind::Eq | IRBinOpKind::Ne => {
            mark_literal(found, direct_slot(lhs, owner), rhs, types);
            mark_literal(found, direct_slot(rhs, owner), lhs, types);
        },
        _ => {},
    }
}

/// The evidence with that of an expression.
pub open spec fn evidence_with(
    expr: IRExpr,
    found: Map<Slot, Evidence>,
    owner: SyntheticFunctionId,
    types: Map<Slot, VariableType>,
) -> Map<Slot, Evidence>
    decreases expr,
{
    match expr {
        IRExpr::BinOp { kind, lhs, rhs } => evidence_with(
            *rhs,
            evidence_with(
                *lhs,
                operand_evidence(kind, *lhs, *rhs, found, owner, types),
                owner,
                types,
            ),
            owner,
            types,
        ),
        IRExpr::Deref(address) => evidence_with(
            *address,
            address_with(*address, found, owner),
            owner,
            types,
        ),
        IRExpr::MemoryAddress { address, .. } => evidence_with(
            *address,
            address_with(*address, found, owner),
            owner,
            types,
        ),
        IRExpr::ElementAddress { base, index, .. } => evidence_with(
            *index,
            evidence_with(*base, found, owner, types),
            owner,
            types,
        ),
        IRExpr::Convert { value, .. } => evidence_with(*value, found, owner, types),
        IRExpr::Not(inner) => evidence_with(*inner, found, owner, types),
        _ => found,
    }
}

fn gather(
    expr: &IRExpr,
    found: &mut Table<Slot, Evidence>,
    owner: SyntheticFunctionId,
    types: &Table<Slot, VariableType>,
)
    ensures
        final(found)@ == evidence_with(*expr, old(found)@, owner, types@),
    decreases expr,
{
    match expr {
        IRExpr::BinOp { kind, lhs, rhs } => {
            operands(*kind, lhs, rhs, found, owner, types);
            gather(lhs, found, owner, types);
            gather(rhs, found, owner, types);
        },
        IRExpr::Deref(address) => {
            address_evidence(address, found, owner);
            gather(address, found, owner, types);
        },
        IRExpr::MemoryAddress { address, .. } => {
            address_evidence(address, found, owner);
            gather(address, found, owner, types);
        },
        IRExpr::ElementAddress { base, index, .. } => {
            gather(base, found, owner, types);
            gather(index, found, owner, types);
        },
        IRExpr::Convert { value, .. } => {
            gather(value, found, owner, types);
        },
        IRExpr::Not(inner) => {
            gather(inner, found, owner, types);
        },
        _ => {},
    }
}

pub open spec fn evidence_with_all(
    list: Seq<IRExpr>,
    found: Map<Slot, Evidence>,
    owner: SyntheticFunctionId,
    types: Map<Slot, VariableType>,
) -> Map<Slot, Evidence>
    decreases list.len(),
{
    if list.len() == 0 {
        found
    } else {
        evidence_with(
            list.last(),
            evidence_with_all(list.drop_last(), found, owner, types),
            owner,
            types,
        )
    }
}

fn gather_all(
    list: &Vec<IRExpr>,
    found: &mut Table<Slot, Evidence>,
    owner: SyntheticFunctionId,
    types: &Table<Slot, VariableType>,
)
    ensures
        final(found)@ == evidence_with_all(list@, old(found)@, owner, types@),
{
    let ghost start = found@;
    assert(list@.subrange(0, 0) =~= Seq::empty());
    let mut i: usize = 0;
    while i < list.len()
        invariant
            i <= list@.len(),
            found@ == evidence_with_all(list@.subrange(0, i as int), start, owner, types@),
        decreases list@.len() - i,
    {
        let ghost prefix = list@.subrange(0, i + 1);
        assert(prefix.drop_last() =~= list@.subrange(0, i as int));
        gather(&list[i], found, owner, types);
        i = i + 1;
    }
    assert(list@.subrange(0, i as int) =~= list@);
}


pub open spec fn is_shift(expr: IRExpr) -> bool {
    expr matches IRExpr::BinOp { kind: IRBinOpKind::Shl, .. }
}

/// The evidence with that of an assignment. A shifted value is an integer.
pub open spec fn assignment_evidence(
    dest: Slot,
    value: IRExpr,
    found: Map<Slot, Evidence>,
    owner: SyntheticFunctionId,
    types: Map<Slot, VariableType>,
) -> Map<Slot, Evidence> {
    evidence_with(
        value,
        if is_shift(value) {
            marked_integer(found, Some(dest), false, types)
        } else {
            found
        },
        owner,
        types,
    )
}

fn assignment(
    dest: Slot,
    value: &IRExpr,
    found: &mut Table<Slot, Evidence>,
    owner: SyntheticFunctionId,
    types: &Table<Slot, VariableType>,
)
    ensures
        final(found)@ == assignment_evidence(dest, *value, old(found)@, owner, types@),
{
    if let IRExpr::BinOp { kind: IRBinOpKind::Shl, .. } = value {
        mark_integer(found, Some(dest), false, types);
    }
    gather(value, found, owner, types);
}

/// Whether two slots have the same known width.
pub open spec fn same_width(types: Map<Slot, VariableType>, dest: Slot, src: Slot) -> bool {
    slot_width(types, dest) is Some && slot_width(types, dest) == slot_width(types, src)
}

fn has_same_width(types: &Table<Slot, VariableType>, dest: Slot, src: Slot) -> (res: bool)
    ensures
        res == same_width(types@, dest, src),
{
    match (find_width(types, dest), find_width(types, src)) {
        (Some(a), Some(b)) => a == b,
        _ => false,
    }
}

/// The copies with that of a slot of the same width.
pub open spec fn with_copy(
    copies: Seq<(Slot, Slot)>,
    dest: Slot,
    value: IRExpr,
    owner: SyntheticFunctionId,
    types: Map<Slot, VariableType>,
) -> Seq<(Slot, Slot)> {
    match slot_in(value, owner) {
        Some(src) => if same_width(types, dest, src) {
            copies.push((dest, src))
        } else {
            copies
        },
        None => copies,
    }
}

fn add_copy(
    copies: &mut Vec<(Slot, Slot)>,
    dest: Slot,
    value: &IRExpr,
    owner: SyntheticFunctionId,
    types: &Table<Slot, VariableType>,
)
    ensures
        final(copies)@ == with_copy(old(copies)@, dest, *value, owner, types@),
{
    if let Some(src) = direct_slot(value, owner) {
        if has_same_width(types, dest, src) {
            copies.push((dest, src));
        }
    }
}

/// The copies with those of the first `count` arguments of a call.
pub open spec fn with_arguments(
    copies: Seq<(Slot, Slot)>,
    function: SyntheticFunctionId,
    arguments: Seq<IRExpr>,
    owner: SyntheticFunctionId,
    types: Map<Slot, VariableType>,
    functions: Seq<FunctionModel>,
    count: int,
) -> Seq<(Slot, Slot)>
    decreases count,
{
    if count <= 0 {
        copies
    } else {
        let before = with_arguments(
            copies,
            function,
            arguments,
            owner,
            types,
            functions,
            count - 1,
        );
        match callee_slot(function, functions, count - 1) {
            Some(dest) => with_copy(before, dest, arguments[count - 1], owner, types),
            None => before,
        }
    }
}

fn add_arguments(
    copies: &mut Vec<(Slot, Slot)>,
    function: SyntheticFunctionId,
    arguments: &Vec<IRExpr>,
    owner: SyntheticFunctionId,
    types: &Table<Slot, VariableType>,
    functions: &Vec<SyntheticFunction>,
)
    ensures
        final(copies)@ == with_arguments(
            old(copies)@,
            function,
            arguments@,
            owner,
            types@,
            function_models(functions@),
            arguments@.len() as int,
        ),
{
    let ghost start = copies@;
    let mut i: usize = 0;
    while i < arguments.len()
        invariant
            i <= arguments@.len(),
            copies@ == with_arguments(
                start,
                function,
                arguments@,
                owner,
                types@,
                function_models(functions@),
                i as int,
            ),
        decreases arguments@.len() - i,
    {
        if let Some(dest) = find_callee_slot(function, functions, i) {
            add_copy(copies, dest, &arguments[i], owner, types);
        }
        i = i + 1;
    }
}

/// The evidence with that of an instruction.
pub open spec fn gathered(
    instr: InstModel,
    found: Map<Slot, Evidence>,
    owner: SyntheticFunctionId,
    types: Map<Slot, VariableType>,
) -> Map<Slot, Evidence>
    decreases instr,
{
    match instr {
        InstModel::Assign { dest, src } => match slot_in(dest, owner) {
            Some(slot) => assignment_evidence(slot, src, found, owner, types),
            None => evidence_with(src, evidence_with(dest, found, owner, types), owner, types),
        },
        InstModel::Return(value) => match value {
            Some(value) => evidence_with(value, found, owner, types),
            None => found,
        },
        InstModel::DeclareAndAssignVariable { variable, value, .. } => assignment_evidence(
            Slot::Variable(variable),
            value,
            found,
            owner,
            types,
        ),
        InstModel::AssignVariable { variable, value } => assignment_evidence(
            Slot::Variable(variable),
            value,
            found,
            owner,
            types,
        ),
        InstModel::LoadVariable { address, .. } => evidence_with(
            address,
            address_with(address, found, owner),
            owner,
            types,
        ),
        InstModel::StoreVariable { address, .. } => evidence_with(
            address,
            address_with(address, found, owner),
            owner,
            types,
        ),
        InstModel::If { condition, then_branch, else_branch } => gathered_list(
            else_branch,
            gathered_list(then_branch, evidence_with(condition, found, owner, types), owner, types),
            owner,
            types,
        ),
        InstModel::While { condition, body, .. } => gathered_body(
            body,
            evidence_with(condition.check(), found, owner, types),
            owner,
            types,
        ),
        InstModel::CallSynthetic { arguments, .. } => evidence_with_all(
            arguments,
            found,
            owner,
            types,
        ),
        InstModel::Jump(target) => evidence_with(
            target,
            address_with(target, found, owner),
            owner,
            types,
        ),
        _ => found,
    }
}

pub open spec fn gathered_list(
    list: Seq<InstModel>,
    found: Map<Slot, Evidence>,
    owner: SyntheticFunctionId,
    types: Map<Slot, VariableType>,
) -> Map<Slot, Evidence>
    decreases list,
{
    if list.len() == 0 {
        found
    } else {
        gathered(
            list[list.len() - 1],
            gathered_list(list.drop_last(), found, owner, types),
            owner,
            types,
        )
    }
}

pub open spec fn gathered_body(
    list: Seq<(usize, InstModel)>,
    found: Map<Slot, Evidence>,
    owner: SyntheticFunctionId,
    types: Map<Slot, VariableType>,
) -> Map<Slot, Evidence>
    decreases list,
{
    if list.len() == 0 {
        found
    } else {
        gathered(
            list[list.len() - 1].1,
            gathered_body(list.drop_last(), found, owner, types),
            owner,
            types,
        )
    }
}

fn instruction(
    instr: &IRInst,
    found: &mut Table<Slot, Evidence>,
    owner: SyntheticFunctionId,
    types: &Table<Slot, VariableType>,
)
    ensures
        final(found)@ == gathered(instr.model(), old(found)@, owner, types@),
    decreases instr,
{
    match instr {
        IRInst::Assign { dest, src } => {
            match direct_slot(dest, owner) {
                Some(slot) => assignment(slot, src, found, owner, types),
                None => {
                    gather(dest, found, owner, types);
                    gather(src, found, owner, types);
                },
            }
        },
        IRInst::Return(value) => {
            if let Some(value) = value {
                gather(value, found, owner, types);
            }
        },
        IRInst::DeclareAndAssignVariable { variable, value, .. } => {
            assignment(Slot::Variable(*variable), value, found, owner, types);
        },
        IRInst::AssignVariable { variable, value } => {
            assignment(Slot::Variable(*variable), value, found, owner, types);
        },
        IRInst::LoadVariable { address, .. } => {
            address_evidence(address, found, owner);
            gather(address, found, owner, types);
        },
        IRInst::StoreVariable { address, .. } => {
            address_evidence(address, found, owner);
            gather(address, found, owner, types);
        },
        IRInst::If { condition, then_branch, else_branch } => {
            gather(condition, found, owner, types);
            instruction_list(then_branch, found, owner, types);
            instruction_list(else_branch, found, owner, types);
        },
        IRInst::While { condition, body, .. } => {
            match condition {
                LoopCondition::Before { expression, .. } => gather(expression, found, owner, types),
                LoopCondition::After { expression, .. } => gather(expression, found, owner, types),
            }
            instruction_body(body, found, owner, types);
        },
        IRInst::CallSynthetic { arguments, .. } => {
            gather_all(arguments, found, owner, types);
        },
        IRInst::Jump(target) => {
            address_evidence(target, found, owner);
            gather(target, found, owner, types);
        },
        _ => {},
    }
}

fn instruction_list(
    list: &Vec<IRInst>,
    found: &mut Table<Slot, Evidence>,
    owner: SyntheticFunctionId,
    types: &Table<Slot, VariableType>,
)
    ensures
        final(found)@ == gathered_list(models(list@), old(found)@, owner, types@),
    decreases list,
{
    let ghost all = models(list@);
    let ghost start = found@;
    assert(all.subrange(0, 0) =~= Seq::empty());
    let mut i: usize = 0;
    while i < list.len()
        invariant
            i <= list@.len(),
            all == models(list@),
            found@ == gathered_list(all.subrange(0, i as int), start, owner, types@),
        decreases list@.len() - i,
    {
        let ghost prefix = all.subrange(0, i + 1);
        assert(prefix.drop_last() =~= all.subrange(0, i as int));
        assert(decreases_to!(list => list@[i as int]));
        instruction(&list[i], found, owner, types);
        i = i + 1;
    }
    assert(all.subrange(0, i as int) =~= all);
}

fn instruction_body(
    list: &Vec<(usize, IRInst)>,
    found: &mut Table<Slot, Evidence>,
    owner: SyntheticFunctionId,
    types: &Table<Slot, VariableType>,
)
    ensures
        final(found)@ == gathered_body(body_models(list@), old(found)@, owner, types@),
    decreases list,
{
    let ghost all = body_models(list@);
    let ghost start = found@;
    assert(all.subrange(0, 0) =~= Seq::empty());
    let mut i: usize = 0;
    while i < list.len()
        invariant
            i <= list@.len(),
            all == body_models(list@),
            found@ == gathered_body(all.subrange(0, i as int), start, owner, types@),
        decreases list@.len() - i,
    {
        let ghost prefix = all.subrange(0, i + 1);
        assert(prefix.drop_last() =~= all.subrange(0, i as int));
        assert(decreases_to!(list => list@[i as int]));
        instruction(&list[i].1, found, owner, types);
        i = i + 1;
    }
    assert(all.subrange(0, i as int) =~= all);
}

/// The copies with those of the assignments in an instruction.
pub open spec fn copied_with(
    instr: InstModel,
    copies: Seq<(Slot, Slot)>,
    owner: SyntheticFunctionId,
    types: Map<Slot, VariableType>,
) -> Seq<(Slot, Slot)>
    decreases instr,
{
    match instr {
        InstModel::Assign { dest, src } => match slot_in(dest, owner) {
            Some(slot) => with_copy(copies, slot, src, owner, types),
            None => copies,
        },
        InstModel::DeclareAndAssignVariable { variable, value, .. } => with_copy(
            copies,
            Slot::Variable(variable),
            value,
            owner,
            types,
        ),
        InstModel::AssignVariable { variable, value } => with_copy(
            copies,
            Slot::Variable(variable),
            value,
            owner,
            types,
        ),
        InstModel::If { then_branch, else_branch, .. } => copied_with_list(
            else_branch,
            copied_with_list(then_branch, copies, owner, types),
            owner,
            types,
        ),
        InstModel::While { body, .. } => copied_with_body(body, copies, owner, types),
        _ => copies,
    }
}

pub open spec fn copied_with_list(
    list: Seq<InstModel>,
    copies: Seq<(Slot, Slot)>,
    owner: SyntheticFunctionId,
    types: Map<Slot, VariableType>,
) -> Seq<(Slot, Slot)>
    decreases list,
{
    if list.len() == 0 {
        copies
    } else {
        copied_with(
            list[list.len() - 1],
            copied_with_list(list.drop_last(), copies, owner, types),
            owner,
            types,
        )
    }
}

pub open spec fn copied_with_body(
    list: Seq<(usize, InstModel)>,
    copies: Seq<(Slot, Slot)>,
    owner: SyntheticFunctionId,
    types: Map<Slot, VariableType>,
) -> Seq<(Slot, Slot)>
    decreases list,
{
    if list.len() == 0 {
        copies
    } else {
        copied_with(
            list[list.len() - 1].1,
            copied_with_body(list.drop_last(), copies, owner, types),
            owner,
            types,
        )
    }
}

fn copy_assignments(
    instr: &IRInst,
    copies: &mut Vec<(Slot, Slot)>,
    owner: SyntheticFunctionId,
    types: &Table<Slot, VariableType>,
)
    ensures
        final(copies)@ == copied_with(instr.model(), old(copies)@, owner, types@),
    decreases instr,
{
    match instr {
        IRInst::Assign { dest, src } => {
            if let Some(slot) = direct_slot(dest, owner) {
                add_copy(copies, slot, src, owner, types);
            }
        },
        IRInst::DeclareAndAssignVariable { variable, value, .. } => {
            add_copy(copies, Slot::Variable(*variable), value, owner, types);
        },
        IRInst::AssignVariable { variable, value } => {
            add_copy(copies, Slot::Variable(*variable), value, owner, types);
        },
        IRInst::If { then_branch, else_branch, .. } => {
            copy_assignments_list(then_branch, copies, owner, types);
            copy_assignments_list(else_branch, copies, owner, types);
        },
        IRInst::While { body, .. } => {
            copy_assignments_body(body, copies, owner, types);
        },
        _ => {},
    }
}

fn copy_assignments_list(
    list: &Vec<IRInst>,
    copies: &mut Vec<(Slot, Slot)>,
    owner: SyntheticFunctionId,
    types: &Table<Slot, VariableType>,
)
    ensures
        final(copies)@ == copied_with_list(models(list@), old(copies)@, owner, types@),
    decreases list,
{
    let ghost all = models(list@);
    let ghost start = copies@;
    assert(all.subrange(0, 0) =~= Seq::empty());
    let mut i: usize = 0;
    while i < list.len()
        invariant
            i <= list@.len(),
            all == models(list@),
            copies@ == copied_with_list(all.subrange(0, i as int), start, owner, types@),
        decreases list@.len() - i,
    {
        let ghost prefix = all.subrange(0, i + 1);
        assert(prefix.drop_last() =~= all.subrange(0, i as int));
        assert(decreases_to!(list => list@[i as int]));
        copy_assignments(&list[i], copies, owner, types);
        i = i + 1;
    }
    assert(all.subrange(0, i as int) =~= all);
}

fn copy_assignments_body(
    list: &Vec<(usize, IRInst)>,
    copies: &mut Vec<(Slot, Slot)>,
    owner: SyntheticFunctionId,
    types: &Table<Slot, VariableType>,
)
    ensures
        final(copies)@ == copied_with_body(body_models(list@), old(copies)@, owner, types@),
    decreases list,
{
    let ghost all = body_models(list@);
    let ghost start = copies@;
    assert(all.subrange(0, 0) =~= Seq::empty());
    let mut i: usize = 0;
    while i < list.len()
        invariant
            i <= list@.len(),
            all == body_models(list@),
            copies@ == copied_with_body(all.subrange(0, i as int), start, owner, types@),
        decreases list@.len() - i,
    {
        let ghost prefix = all.subrange(0, i + 1);
        assert(prefix.drop_last() =~= all.subrange(0, i as int));
        assert(decreases_to!(list => list@[i as int]));
        copy_assignments(&list[i].1, copies, owner, types);
        i = i + 1;
    }
    assert(all.subrange(0, i as int) =~= all);
}

/// The copies with those of the calls in an instruction. A synthetic parameter
/// carries the value of the caller without conversion.
pub open spec fn called_with(
    instr: InstModel,
    copies: Seq<(Slot, Slot)>,
    owner: SyntheticFunctionId,
    types: Map<Slot, VariableType>,
    functions: Seq<FunctionModel>,
) -> Seq<(Slot, Slot)>
    decreases instr,
{
    match instr {
        InstModel::If { then_branch, else_branch, .. } => called_with_list(
            else_branch,
            called_with_list(then_branch, copies, owner, types, functions),
            owner,
            types,
            functions,
        ),
        InstModel::While { body, .. } => called_with_body(body, copies, owner, types, functions),
        InstModel::CallSynthetic { function, arguments } => with_arguments(
            copies,
            function,
            arguments,
            owner,
            types,
            functions,
            arguments.len() as int,
        ),
        _ => copies,
    }
}

pub open spec fn called_with_list(
    list: Seq<InstModel>,
    copies: Seq<(Slot, Slot)>,
    owner: SyntheticFunctionId,
    types: Map<Slot, VariableType>,
    functions: Seq<FunctionModel>,
) -> Seq<(Slot, Slot)>
    decreases list,
{
    if list.len() == 0 {
        copies
    } else {
        called_with(
            list[list.len() - 1],
            called_with_list(list.drop_last(), copies, owner, types, functions),
            owner,
            types,
            functions,
        )
    }
}

pub open spec fn called_with_body(
    list: Seq<(usize, InstModel)>,
    copies: Seq<(Slot, Slot)>,
    owner: SyntheticFunctionId,
    types: Map<Slot, VariableType>,
    functions: Seq<FunctionModel>,
) -> Seq<(Slot, Slot)>
    decreases list,
{
    if list.len() == 0 {
        copies
    } else {
        called_with(
            list[list.len() - 1].1,
            called_with_body(list.drop_last(), copies, owner, types, functions),
            owner,
            types,
            functions,
        )
    }
}

fn calls(
    instr: &IRInst,
    copies: &mut Vec<(Slot, Slot)>,
    owner: SyntheticFunctionId,
    types: &Table<Slot, VariableType>,
    functions: &Vec<SyntheticFunction>,
)
    ensures
        final(copies)@ == called_with(
            instr.model(),
            old(copies)@,
            owner,
            types@,
            function_models(functions@),
        ),
    decreases instr,
{
    match instr {
        IRInst::If { then_branch, else_branch, .. } => {
            calls_list(then_branch, copies, owner, types, functions);
            calls_list(else_branch, copies, owner, types, functions);
        },
        IRInst::While { body, .. } => {
            calls_body(body, copies, owner, types, functions);
        },
        IRInst::CallSynthetic { function, arguments } => {
            add_arguments(copies, *function, arguments, owner, types, functions);
        },
        _ => {},
    }
}

fn calls_list(
    list: &Vec<IRInst>,
    copies: &mut Vec<(Slot, Slot)>,
    owner: SyntheticFunctionId,
    types: &Table<Slot, VariableType>,
    functions: &Vec<SyntheticFunction>,
)
    ensures
        final(copies)@ == called_with_list(
            models(list@),
            old(copies)@,
            owner,
            types@,
            function_models(functions@),
        ),
    decreases list,
{
    let ghost all = models(list@);
    let ghost start = copies@;
    assert(all.subrange(0, 0) =~= Seq::empty());
    let mut i: usize = 0;
    while i < list.len()
        invariant
            i <= list@.len(),
            all == models(list@),
            copies@ == called_with_list(
                all.subrange(0, i as int),
                start,
                owner,
                types@,
                function_models(functions@),
            ),
        decreases list@.len() - i,
    {
        let ghost prefix = all.subrange(0, i + 1);
        assert(prefix.drop_last() =~= all.subrange(0, i as int));
        assert(decreases_to!(list => list@[i as int]));
        calls(&list[i], copies, owner, types, functions);
        i = i + 1;
    }
    assert(all.subrange(0, i as int) =~= all);
}

fn calls_body(
    list: &Vec<(usize, IRInst)>,
    copies: &mut Vec<(Slot, Slot)>,
    owner: SyntheticFunctionId,
    types: &Table<Slot, VariableType>,
    functions: &Vec<SyntheticFunction>,
)
    ensures
        final(copies)@ == called_with_body(
            body_models(list@),
            old(copies)@,
            owner,
            types@,
            function_models(functions@),
        ),
    decreases list,
{
    let ghost all = body_models(list@);
    let ghost start = copies@;
    assert(all.subrange(0, 0) =~= Seq::empty());
    let mut i: usize = 0;
    while i < list.len()
        invariant
            i <= list@.len(),
            all == body_models(list@),
            copies@ == called_with_body(
                all.subrange(0, i as int),
                start,
                owner,
                types@,
                function_models(functions@),
            ),
        decreases list@.len() - i,
    {
        let ghost prefix = all.subrange(0, i + 1);
        assert(prefix.drop_last() =~= all.subrange(0, i as int));
        assert(decreases_to!(list => list@[i as int]));
        calls(&list[i].1, copies, owner, types, functions);
        i = i + 1;
    }
    assert(all.subrange(0, i as int) =~= all);
}


// ---------------------------------------------------------------------------
// Propagation of evidence

pub open spec fn both_evidence(a: Evidence, b: Evidence) -> Evidence {
    Evidence {
        integer: a.integer || b.integer,
        unsigned: a.unsigned || b.unsigned,
        address: a.address || b.address,
    }
}

/// The evidence after the first `count` copies have shared theirs once.
pub open spec fn shared_evidence(
    found: Map<Slot, Evidence>,
    copies: Seq<(Slot, Slot)>,
    count: int,
) -> Map<
    Slot,
    Evidence,
>
    decreases count,
{
    if count <= 0 {
        found
    } else {
        let before = shared_evidence(found, copies, count - 1);
        let dest = copies[count - 1].0;
        let src = copies[count - 1].1;
        let both = both_evidence(evidence_at(before, dest), evidence_at(before, src));
        before.insert(dest, both).insert(src, both)
    }
}

/// The evidence after a number of rounds. Exact copies have the same bit pattern,
/// so a pointer-shaped member makes a whole group ineligible for integers.
pub open spec fn spread_evidence(
    found: Map<Slot, Evidence>,
    copies: Seq<(Slot, Slot)>,
    rounds: nat,
) -> Map<
    Slot,
    Evidence,
>
    decreases rounds,
{
    if rounds == 0 {
        found
    } else {
        shared_evidence(
            spread_evidence(found, copies, (rounds - 1) as nat),
            copies,
            copies.len() as int,
        )
    }
}

/// How much evidence says.
pub open spec fn evidence_weight() -> spec_fn(Evidence) -> nat {
    |e: Evidence| (if e.integer {
        1nat
    } else {
        0nat
    }) + (if e.unsigned {
        1nat
    } else {
        0nat
    }) + (if e.address {
        1nat
    } else {
        0nat
    })
}

proof fn lemma_evidence_rounds(found: Map<Slot, Evidence>, copies: Seq<(Slot, Slot)>, rounds: nat)
    ensures
        shared_evidence(
            spread_evidence(found, copies, rounds),
            copies,
            copies.len() as int,
        ) == spread_evidence(found, copies, rounds) || rank(
            spread_evidence(found, copies, rounds),
            copies,
            evidence_weight(),
            (copies).len() as int,
        ) >= rounds,
    decreases rounds,
{
    if rounds > 0 {
        let before = spread_evidence(found, copies, (rounds - 1) as nat);
        lemma_evidence_rounds(found, copies, (rounds - 1) as nat);
        lemma_evidence_step(before, copies);
        lemma_round_raises(
            before,
            spread_evidence(found, copies, rounds),
            copies,
            evidence_weight(),
        );
    }
}

/// A further round changes nothing.
pub proof fn law_evidence_settles(
    found: Map<Slot, Evidence>,
    copies: Seq<(Slot, Slot)>,
    rounds: nat,
)
    requires
        rounds >= (copies).len() * 8,
    ensures
        shared_evidence(
            spread_evidence(found, copies, rounds),
            copies,
            copies.len() as int,
        ) == spread_evidence(found, copies, rounds),
{
    let settled = spread_evidence(found, copies, rounds);
    let after = shared_evidence(
        spread_evidence(found, copies, rounds),
        copies,
        copies.len() as int,
    );
    let pairs = copies;
    lemma_evidence_rounds(found, copies, rounds);
    lemma_evidence_step(settled, copies);
    lemma_round_raises(settled, after, pairs, evidence_weight());
    lemma_rank_bound(after, pairs, evidence_weight(), 3, pairs.len() as int);
}

proof fn lemma_evidence_stays(
    found: Map<Slot, Evidence>,
    copies: Seq<(Slot, Slot)>,
    rounds: nat,
    more: nat,
)
    requires
        shared_evidence(
            spread_evidence(found, copies, rounds),
            copies,
            copies.len() as int,
        ) == spread_evidence(found, copies, rounds),
    ensures
        spread_evidence(found, copies, rounds + more) == spread_evidence(found, copies, rounds),
    decreases more,
{
    if more > 0 {
        lemma_evidence_stays(found, copies, rounds, (more - 1) as nat);
    }
}

proof fn lemma_shared_evidence(found: Map<Slot, Evidence>, copies: Seq<(Slot, Slot)>, count: int)
    requires
        0 <= count <= copies.len(),
    ensures
        grows(found, shared_evidence(found, copies, count), evidence_weight()),
        same_beyond(found, shared_evidence(found, copies, count), copies),
    decreases count,
{
    if count > 0 {
        let before = shared_evidence(found, copies, count - 1);
        let after = shared_evidence(found, copies, count);
        lemma_shared_evidence(found, copies, count - 1);
        assert(grows(before, after, evidence_weight()));
        lemma_grows_on(found, before, after, evidence_weight());
        assert forall|k: Slot| !is_end(copies, k) implies (#[trigger] found.dom().contains(k)
            == after.dom().contains(k)) && (found.dom().contains(k) ==> found[k] == after[k]) by {
            assert(copies[count - 1].0 != k && copies[count - 1].1 != k);
            assert(found.dom().contains(k) == before.dom().contains(k));
        }
    }
}

proof fn lemma_evidence_step(found: Map<Slot, Evidence>, copies: Seq<(Slot, Slot)>)
    ensures
        grows(found, shared_evidence(found, copies, copies.len() as int), evidence_weight()),
        same_beyond(found, shared_evidence(found, copies, copies.len() as int), copies),
{
    lemma_shared_evidence(found, copies, copies.len() as int);
}

/// Shares the evidence along copies until nothing changes.
fn propagate(found: &mut Table<Slot, Evidence>, copies: &Vec<(Slot, Slot)>)
    ensures
        final(found)@ == spread_evidence(old(found)@, copies@, copies@.len() * 8),
{
    let ghost start = found@;
    let rounds: u128 = (copies.len() as u128) * 8;
    let mut round: u128 = 0;
    let mut going: bool = true;
    while going && round < rounds
        invariant
            round <= rounds,
            rounds == copies@.len() * 8,
            going ==> found@ == spread_evidence(start, copies@, round as nat),
            !going ==> found@ == spread_evidence(start, copies@, rounds as nat),
        decreases rounds - round, going as int,
    {
        let ghost before = found@;
        going = share_evidence(found, copies);
        if !going {
            proof {
                lemma_evidence_stays(start, copies@, round as nat, (rounds - round) as nat);
            }
        } else {
            round = round + 1;
        }
    }
}

/// Shares the evidence along copies once, and returns whether it changed.
fn share_evidence(found: &mut Table<Slot, Evidence>, copies: &Vec<(Slot, Slot)>) -> (res: bool)
    ensures
        final(found)@ == shared_evidence(old(found)@, copies@, copies@.len() as int),
        !res ==> final(found)@ == old(found)@,
{
    let ghost before = found@;
    let mut changed: bool = false;
    let mut i: usize = 0;
    while i < copies.len()
        invariant
            i <= copies@.len(),
            found@ == shared_evidence(before, copies@, i as int),
            !changed ==> found@ == before,
        decreases copies@.len() - i,
    {
        let (dest, src) = copies[i];
        let ghost current = found@;
        let left: Evidence = find_evidence(found, dest);
        let right: Evidence = find_evidence(found, src);
        let both = Evidence {
            integer: left.integer || right.integer,
            unsigned: left.unsigned || right.unsigned,
            address: left.address || right.address,
        };
        if !found.contains(dest) || !found.contains(src) || left != both || right != both {
            changed = true;
        }
        found.insert(dest, both);
        found.insert(src, both);
        assert(!changed ==> found@ =~= current);
        i = i + 1;
    }
    changed
}

/// The type of a slot by its evidence as an integer. One without a signed
/// comparison is integer-shaped; its signedness can be refined later.
pub open spec fn integer_type(
    evidence: Map<Slot, Evidence>,
    slot: Slot,
    original: VariableType,
) -> VariableType {
    match width_of(original) {
        Some(size) => {
            let found = evidence_at(evidence, slot);
            if !found.integer || found.address {
                original
            } else if found.unsigned {
                VariableType::UnsignedInteger((size * 8) as usize)
            } else {
                VariableType::Integer((size * 8) as usize)
            }
        },
        None => original,
    }
}

fn inferred(evidence: &Table<Slot, Evidence>, slot: Slot, original: &VariableType) -> (res:
    VariableType)
    ensures
        res == integer_type(evidence@, slot, *original),
{
    match width(original) {
        Some(size) => {
            let found: Evidence = find_evidence(evidence, slot);
            if !found.integer || found.address {
                original.clone()
            } else if found.unsigned {
                VariableType::UnsignedInteger(size * 8)
            } else {
                VariableType::Integer(size * 8)
            }
        },
        None => original.clone(),
    }
}

pub open spec fn slot_type(
    types: Map<Slot, VariableType>,
    evidence: Map<Slot, Evidence>,
    slot: Slot,
) -> Option<VariableType> {
    if types.dom().contains(slot) {
        Some(integer_type(evidence, slot, types[slot]))
    } else {
        None
    }
}

fn find_type(
    types: &Table<Slot, VariableType>,
    evidence: &Table<Slot, Evidence>,
    slot: Slot,
) -> (res: Option<VariableType>)
    ensures
        res == slot_type(types@, evidence@, slot),
{
    match types.get(slot) {
        Some(ty) => Some(inferred(evidence, slot, ty)),
        None => None,
    }
}


// ---------------------------------------------------------------------------
// Pointer uses

/// Whether an expression has an integer shape of its own. Two unknown operands of
/// an addition do not identify which one is the address base.
pub open spec fn is_offset(
    expr: IRExpr,
    owner: SyntheticFunctionId,
    types: Map<Slot, VariableType>,
    evidence: Map<Slot, Evidence>,
) -> bool
    decreases expr,
{
    if literal_width(expr) is Some {
        true
    } else {
        match slot_in(expr, owner) {
            Some(slot) => match slot_type(types, evidence, slot) {
                Some(VariableType::Integer(_)) => true,
                Some(VariableType::UnsignedInteger(_)) => true,
                _ => false,
            },
            None => match expr {
                IRExpr::BinOp { kind, lhs, rhs } => (kind == IRBinOpKind::Add || kind
                    == IRBinOpKind::Sub || kind == IRBinOpKind::Shl) && is_offset(
                    *lhs,
                    owner,
                    types,
                    evidence,
                ) && is_offset(*rhs, owner, types, evidence),
                _ => false,
            },
        }
    }
}

fn integer_offset(
    expr: &IRExpr,
    owner: SyntheticFunctionId,
    types: &Table<Slot, VariableType>,
    evidence: &Table<Slot, Evidence>,
) -> (res: bool)
    ensures
        res == is_offset(*expr, owner, types@, evidence@),
    decreases expr,
{
    if literal_size(expr).is_some() {
        return true;
    }
    if let Some(slot) = direct_slot(expr, owner) {
        return match find_type(types, evidence, slot) {
            Some(VariableType::Integer(_)) => true,
            Some(VariableType::UnsignedInteger(_)) => true,
            _ => false,
        };
    }
    match expr {
        IRExpr::BinOp { kind, lhs, rhs } => (*kind == IRBinOpKind::Add || *kind
            == IRBinOpKind::Sub || *kind == IRBinOpKind::Shl) && integer_offset(
            lhs,
            owner,
            types,
            evidence,
        ) && integer_offset(rhs, owner, types, evidence),
        _ => false,
    }
}

/// Which operand of an addition is the address base: the left one, the right one,
/// or neither for certain.
pub open spec fn base_side(
    kind: IRBinOpKind,
    lhs: IRExpr,
    rhs: IRExpr,
    owner: SyntheticFunctionId,
    types: Map<Slot, VariableType>,
    evidence: Map<Slot, Evidence>,
) -> Option<bool> {
    let left = is_offset(lhs, owner, types, evidence);
    let right = is_offset(rhs, owner, types, evidence);
    if kind != IRBinOpKind::Add || left == right {
        None
    } else {
        Some(!left)
    }
}

fn address_base(
    kind: IRBinOpKind,
    lhs: &IRExpr,
    rhs: &IRExpr,
    owner: SyntheticFunctionId,
    types: &Table<Slot, VariableType>,
    evidence: &Table<Slot, Evidence>,
) -> (res: Option<bool>)
    ensures
        res == base_side(kind, *lhs, *rhs, owner, types@, evidence@),
{
    let left: bool = integer_offset(lhs, owner, types, evidence);
    let right: bool = integer_offset(rhs, owner, types, evidence);
    if kind != IRBinOpKind::Add || left == right {
        None
    } else {
        Some(!left)
    }
}

pub open spec fn with_use(uses: Map<Slot, PointerUse>, slot: Slot, dereferenced: bool) -> Map<
    Slot,
    PointerUse,
> {
    let before = use_at(uses, slot);
    uses.insert(
        slot,
        PointerUse {
            dereferenced: before.dereferenced || dereferenced,
            other: before.other || !dereferenced,
        },
    )
}

fn pointer_use(uses: &mut Table<Slot, PointerUse>, slot: Slot, dereferenced: bool)
    ensures
        final(uses)@ == with_use(old(uses)@, slot, dereferenced),
{
    let before: PointerUse = find_use(uses, slot);
    uses.insert(
        slot,
        PointerUse {
            dereferenced: before.dereferenced || dereferenced,
            other: before.other || !dereferenced,
        },
    );
}

/// The uses with those of an address that is dereferenced.
pub open spec fn address_uses(
    expr: IRExpr,
    uses: Map<Slot, PointerUse>,
    owner: SyntheticFunctionId,
    types: Map<Slot, VariableType>,
    evidence: Map<Slot, Evidence>,
) -> Map<Slot, PointerUse>
    decreases expr, 1int,
{
    match expr {
        IRExpr::MemoryAddress { address, .. } => address_uses(
            *address,
            uses,
            owner,
            types,
            evidence,
        ),
        IRExpr::Variable(_) | IRExpr::Argument(_) => with_use(
            uses,
            slot_in(expr, owner)->0,
            true,
        ),
        IRExpr::BinOp { kind, lhs, rhs } => match base_side(
            kind,
            *lhs,
            *rhs,
            owner,
            types,
            evidence,
        ) {
            Some(true) => value_uses(
                *rhs,
                address_uses(*lhs, uses, owner, types, evidence),
                owner,
                types,
                evidence,
            ),
            Some(false) => value_uses(
                *lhs,
                address_uses(*rhs, uses, owner, types, evidence),
                owner,
                types,
                evidence,
            ),
            None => value_uses(expr, uses, owner, types, evidence),
        },
        _ => value_uses(expr, uses, owner, types, evidence),
    }
}

/// The uses with those of a value.
pub open spec fn value_uses(
    expr: IRExpr,
    uses: Map<Slot, PointerUse>,
    owner: SyntheticFunctionId,
    types: Map<Slot, VariableType>,
    evidence: Map<Slot, Evidence>,
) -> Map<Slot, PointerUse>
    decreases expr, 0int,
{
    match expr {
        IRExpr::Variable(_) | IRExpr::Argument(_) => with_use(
            uses,
            slot_in(expr, owner)->0,
            false,
        ),
        IRExpr::Deref(address) => address_uses(*address, uses, owner, types, evidence),
        IRExpr::BinOp { lhs, rhs, .. } => value_uses(
            *rhs,
            value_uses(*lhs, uses, owner, types, evidence),
            owner,
            types,
            evidence,
        ),
        IRExpr::MemoryAddress { address, .. } => value_uses(*address, uses, owner, types, evidence),
        IRExpr::ElementAddress { base, index, .. } => value_uses(
            *index,
            value_uses(*base, uses, owner, types, evidence),
            owner,
            types,
            evidence,
        ),
        IRExpr::Convert { value, .. } => value_uses(*value, uses, owner, types, evidence),
        IRExpr::Not(inner) => value_uses(*inner, uses, owner, types, evidence),
        _ => uses,
    }
}

fn pointer_address(
    expr: &IRExpr,
    uses: &mut Table<Slot, PointerUse>,
    owner: SyntheticFunctionId,
    types: &Table<Slot, VariableType>,
    evidence: &Table<Slot, Evidence>,
)
    ensures
        final(uses)@ == address_uses(*expr, old(uses)@, owner, types@, evidence@),
    decreases expr, 1int,
{
    if let Some(slot) = direct_slot(expr, owner) {
        pointer_use(uses, slot, true);
        return;
    }
    match expr {
        IRExpr::MemoryAddress { address, .. } => {
            pointer_address(address, uses, owner, types, evidence);
        },
        IRExpr::BinOp { kind, lhs, rhs } => match address_base(
            *kind,
            lhs,
            rhs,
            owner,
            types,
            evidence,
        ) {
            Some(true) => {
                pointer_address(lhs, uses, owner, types, evidence);
                pointer_value(rhs, uses, owner, types, evidence);
            },
            Some(false) => {
                pointer_address(rhs, uses, owner, types, evidence);
                pointer_value(lhs, uses, owner, types, evidence);
            },
            None => {
                pointer_value(expr, uses, owner, types, evidence);
            },
        },
        _ => {
            pointer_value(expr, uses, owner, types, evidence);
        },
    }
}

fn pointer_value(
    expr: &IRExpr,
    uses: &mut Table<Slot, PointerUse>,
    owner: SyntheticFunctionId,
    types: &Table<Slot, VariableType>,
    evidence: &Table<Slot, Evidence>,
)
    ensures
        final(uses)@ == value_uses(*expr, old(uses)@, owner, types@, evidence@),
    decreases expr, 0int,
{
    if let Some(slot) = direct_slot(expr, owner) {
        pointer_use(uses, slot, false);
        return;
    }
    match expr {
        IRExpr::Deref(address) => {
            pointer_address(address, uses, owner, types, evidence);
        },
        IRExpr::BinOp { lhs, rhs, .. } => {
            pointer_value(lhs, uses, owner, types, evidence);
            pointer_value(rhs, uses, owner, types, evidence);
        },
        IRExpr::MemoryAddress { address, .. } => {
            pointer_value(address, uses, owner, types, evidence);
        },
        IRExpr::ElementAddress { base, index, .. } => {
            pointer_value(base, uses, owner, types, evidence);
            pointer_value(index, uses, owner, types, evidence);
        },
        IRExpr::Convert { value, .. } => {
            pointer_value(value, uses, owner, types, evidence);
        },
        IRExpr::Not(inner) => {
            pointer_value(inner, uses, owner, types, evidence);
        },
        _ => {},
    }
}


/// Whether a value is a slot that the destination copies exactly. The copies
/// account for those.
pub open spec fn is_exact_copy(
    dest: Slot,
    value: IRExpr,
    owner: SyntheticFunctionId,
    types: Map<Slot, VariableType>,
) -> bool {
    slot_in(value, owner) matches Some(src) && same_width(types, dest, src)
}

/// The slot that an address is derived from, and on which side of the addition it
/// stands.
pub open spec fn derivation(
    dest: Slot,
    value: IRExpr,
    owner: SyntheticFunctionId,
    types: Map<Slot, VariableType>,
    evidence: Map<Slot, Evidence>,
) -> Option<(Slot, bool)> {
    match value {
        IRExpr::BinOp { kind, lhs, rhs } => match base_side(
            kind,
            *lhs,
            *rhs,
            owner,
            types,
            evidence,
        ) {
            Some(left) => match slot_in(
                if left {
                    *lhs
                } else {
                    *rhs
                },
                owner,
            ) {
                Some(src) => if slot_width(types, dest) == Some(8usize) && slot_width(types, src)
                    == Some(8usize) {
                    Some((src, left))
                } else {
                    None
                },
                None => None,
            },
            None => None,
        },
        _ => None,
    }
}

fn find_derivation(
    dest: Slot,
    value: &IRExpr,
    owner: SyntheticFunctionId,
    types: &Table<Slot, VariableType>,
    evidence: &Table<Slot, Evidence>,
) -> (res: Option<(Slot, bool)>)
    ensures
        res == derivation(dest, *value, owner, types@, evidence@),
{
    match value {
        IRExpr::BinOp { kind, lhs, rhs } => {
            let left: bool = match address_base(*kind, lhs, rhs, owner, types, evidence) {
                Some(left) => left,
                None => return None,
            };
            let src: Slot = match direct_slot(
                if left {
                    lhs
                } else {
                    rhs
                },
                owner,
            ) {
                Some(src) => src,
                None => return None,
            };
            match (find_width(types, dest), find_width(types, src)) {
                (Some(a), Some(b)) => if a == 8 && b == 8 {
                    Some((src, left))
                } else {
                    None
                },
                _ => None,
            }
        },
        _ => None,
    }
}

pub open spec fn operand(value: IRExpr, left: bool) -> IRExpr {
    match value {
        IRExpr::BinOp { lhs, rhs, .. } => if left {
            *lhs
        } else {
            *rhs
        },
        _ => value,
    }
}

/// The uses with those of an assignment. Of a derived address only the offset is
/// a use by itself.
pub open spec fn assignment_uses(
    dest: Slot,
    value: IRExpr,
    uses: Map<Slot, PointerUse>,
    owner: SyntheticFunctionId,
    types: Map<Slot, VariableType>,
    evidence: Map<Slot, Evidence>,
) -> Map<Slot, PointerUse> {
    if is_exact_copy(dest, value, owner, types) {
        uses
    } else {
        match derivation(dest, value, owner, types, evidence) {
            Some((_, left)) => value_uses(operand(value, !left), uses, owner, types, evidence),
            None => value_uses(value, uses, owner, types, evidence),
        }
    }
}

fn exact_copy(
    dest: Slot,
    value: &IRExpr,
    owner: SyntheticFunctionId,
    types: &Table<Slot, VariableType>,
) -> (res: bool)
    ensures
        res == is_exact_copy(dest, *value, owner, types@),
{
    match direct_slot(value, owner) {
        Some(src) => has_same_width(types, dest, src),
        None => false,
    }
}

fn pointer_assignment(
    dest: Slot,
    value: &IRExpr,
    uses: &mut Table<Slot, PointerUse>,
    owner: SyntheticFunctionId,
    types: &Table<Slot, VariableType>,
    evidence: &Table<Slot, Evidence>,
)
    ensures
        final(uses)@ == assignment_uses(dest, *value, old(uses)@, owner, types@, evidence@),
{
    if exact_copy(dest, value, owner, types) {
        return;
    }
    if let Some((_, left)) = find_derivation(dest, value, owner, types, evidence) {
        if let IRExpr::BinOp { lhs, rhs, .. } = value {
            if left {
                pointer_value(rhs, uses, owner, types, evidence);
            } else {
                pointer_value(lhs, uses, owner, types, evidence);
            }
        }
        return;
    }
    pointer_value(value, uses, owner, types, evidence);
}

/// The derived addresses with that of an assignment.
pub open spec fn with_derived(
    derived: Seq<(Slot, Slot)>,
    dest: Slot,
    value: IRExpr,
    owner: SyntheticFunctionId,
    types: Map<Slot, VariableType>,
    evidence: Map<Slot, Evidence>,
) -> Seq<(Slot, Slot)> {
    match derivation(dest, value, owner, types, evidence) {
        Some((src, _)) => derived.push((dest, src)),
        None => derived,
    }
}

fn add_derived(
    derived: &mut Vec<(Slot, Slot)>,
    dest: Slot,
    value: &IRExpr,
    owner: SyntheticFunctionId,
    types: &Table<Slot, VariableType>,
    evidence: &Table<Slot, Evidence>,
)
    ensures
        final(derived)@ == with_derived(old(derived)@, dest, *value, owner, types@, evidence@),
{
    if let Some((src, _)) = find_derivation(dest, value, owner, types, evidence) {
        derived.push((dest, src));
    }
}

/// The uses with those of the first `count` arguments of a call.
pub open spec fn argument_uses(
    function: SyntheticFunctionId,
    arguments: Seq<IRExpr>,
    uses: Map<Slot, PointerUse>,
    owner: SyntheticFunctionId,
    types: Map<Slot, VariableType>,
    evidence: Map<Slot, Evidence>,
    functions: Seq<FunctionModel>,
    count: int,
) -> Map<Slot, PointerUse>
    decreases count,
{
    if count <= 0 {
        uses
    } else {
        let before = argument_uses(
            function,
            arguments,
            uses,
            owner,
            types,
            evidence,
            functions,
            count - 1,
        );
        match callee_slot(function, functions, count - 1) {
            Some(dest) => assignment_uses(
                dest,
                arguments[count - 1],
                before,
                owner,
                types,
                evidence,
            ),
            None => value_uses(arguments[count - 1], before, owner, types, evidence),
        }
    }
}

fn pointer_arguments(
    function: SyntheticFunctionId,
    arguments: &Vec<IRExpr>,
    uses: &mut Table<Slot, PointerUse>,
    owner: SyntheticFunctionId,
    types: &Table<Slot, VariableType>,
    evidence: &Table<Slot, Evidence>,
    functions: &Vec<SyntheticFunction>,
)
    ensures
        final(uses)@ == argument_uses(
            function,
            arguments@,
            old(uses)@,
            owner,
            types@,
            evidence@,
            function_models(functions@),
            arguments@.len() as int,
        ),
{
    let ghost start = uses@;
    let mut i: usize = 0;
    while i < arguments.len()
        invariant
            i <= arguments@.len(),
            uses@ == argument_uses(
                function,
                arguments@,
                start,
                owner,
                types@,
                evidence@,
                function_models(functions@),
                i as int,
            ),
        decreases arguments@.len() - i,
    {
        match find_callee_slot(function, functions, i) {
            Some(dest) => {
                pointer_assignment(dest, &arguments[i], uses, owner, types, evidence);
            },
            None => {
                pointer_value(&arguments[i], uses, owner, types, evidence);
            },
        }
        i = i + 1;
    }
}

/// The derived addresses with those of the first `count` arguments of a call.
pub open spec fn derived_arguments(
    function: SyntheticFunctionId,
    arguments: Seq<IRExpr>,
    derived: Seq<(Slot, Slot)>,
    owner: SyntheticFunctionId,
    types: Map<Slot, VariableType>,
    evidence: Map<Slot, Evidence>,
    functions: Seq<FunctionModel>,
    count: int,
) -> Seq<(Slot, Slot)>
    decreases count,
{
    if count <= 0 {
        derived
    } else {
        let before = derived_arguments(
            function,
            arguments,
            derived,
            owner,
            types,
            evidence,
            functions,
            count - 1,
        );
        match callee_slot(function, functions, count - 1) {
            Some(dest) => with_derived(
                before,
                dest,
                arguments[count - 1],
                owner,
                types,
                evidence,
            ),
            None => before,
        }
    }
}

fn derive_arguments(
    function: SyntheticFunctionId,
    arguments: &Vec<IRExpr>,
    derived: &mut Vec<(Slot, Slot)>,
    owner: SyntheticFunctionId,
    types: &Table<Slot, VariableType>,
    evidence: &Table<Slot, Evidence>,
    functions: &Vec<SyntheticFunction>,
)
    ensures
        final(derived)@ == derived_arguments(
            function,
            arguments@,
            old(derived)@,
            owner,
            types@,
            evidence@,
            function_models(functions@),
            arguments@.len() as int,
        ),
{
    let ghost start = derived@;
    let mut i: usize = 0;
    while i < arguments.len()
        invariant
            i <= arguments@.len(),
            derived@ == derived_arguments(
                function,
                arguments@,
                start,
                owner,
                types@,
                evidence@,
                function_models(functions@),
                i as int,
            ),
        decreases arguments@.len() - i,
    {
        if let Some(dest) = find_callee_slot(function, functions, i) {
            add_derived(derived, dest, &arguments[i], owner, types, evidence);
        }
        i = i + 1;
    }
}

/// The pointer uses with those of an instruction.
pub open spec fn uses_with(
    instr: InstModel,
    uses: Map<Slot, PointerUse>,
    owner: SyntheticFunctionId,
    types: Map<Slot, VariableType>,
    evidence: Map<Slot, Evidence>,
    functions: Seq<FunctionModel>,
) -> Map<Slot, PointerUse>
    decreases instr,
{
    match instr {
        InstModel::Assign { dest, src } => match slot_in(dest, owner) {
            Some(slot) => assignment_uses(slot, src, uses, owner, types, evidence),
            None => value_uses(
                src,
                value_uses(dest, uses, owner, types, evidence),
                owner,
                types,
                evidence,
            ),
        },
        InstModel::Return(value) => match value {
            Some(value) => value_uses(value, uses, owner, types, evidence),
            None => uses,
        },
        InstModel::DeclareAndAssignVariable { variable, value, .. } => assignment_uses(
            Slot::Variable(variable),
            value,
            uses,
            owner,
            types,
            evidence,
        ),
        InstModel::AssignVariable { variable, value } => assignment_uses(
            Slot::Variable(variable),
            value,
            uses,
            owner,
            types,
            evidence,
        ),
        InstModel::LoadVariable { address, .. } => address_uses(
            address,
            uses,
            owner,
            types,
            evidence,
        ),
        InstModel::StoreVariable { address, variable } => with_use(
            address_uses(address, uses, owner, types, evidence),
            Slot::Variable(variable),
            false,
        ),
        InstModel::If { condition, then_branch, else_branch } => uses_with_list(
            else_branch,
            uses_with_list(
                then_branch,
                value_uses(condition, uses, owner, types, evidence),
                owner,
                types,
                evidence,
                functions,
            ),
            owner,
            types,
            evidence,
            functions,
        ),
        InstModel::While { condition, body, .. } => uses_with_body(
            body,
            value_uses(condition.check(), uses, owner, types, evidence),
            owner,
            types,
            evidence,
            functions,
        ),
        InstModel::CallSynthetic { function, arguments } => argument_uses(
            function,
            arguments,
            uses,
            owner,
            types,
            evidence,
            functions,
            arguments.len() as int,
        ),
        InstModel::Jump(target) => value_uses(target, uses, owner, types, evidence),
        _ => uses,
    }
}

pub open spec fn uses_with_list(
    list: Seq<InstModel>,
    uses: Map<Slot, PointerUse>,
    owner: SyntheticFunctionId,
    types: Map<Slot, VariableType>,
    evidence: Map<Slot, Evidence>,
    functions: Seq<FunctionModel>,
) -> Map<Slot, PointerUse>
    decreases list,
{
    if list.len() == 0 {
        uses
    } else {
        uses_with(
            list[list.len() - 1],
            uses_with_list(list.drop_last(), uses, owner, types, evidence, functions),
            owner,
            types,
            evidence,
            functions,
        )
    }
}

pub open spec fn uses_with_body(
    list: Seq<(usize, InstModel)>,
    uses: Map<Slot, PointerUse>,
    owner: SyntheticFunctionId,
    types: Map<Slot, VariableType>,
    evidence: Map<Slot, Evidence>,
    functions: Seq<FunctionModel>,
) -> Map<Slot, PointerUse>
    decreases list,
{
    if list.len() == 0 {
        uses
    } else {
        uses_with(
            list[list.len() - 1].1,
            uses_with_body(list.drop_last(), uses, owner, types, evidence, functions),
            owner,
            types,
            evidence,
            functions,
        )
    }
}

fn pointer_instruction(
    instr: &IRInst,
    uses: &mut Table<Slot, PointerUse>,
    owner: SyntheticFunctionId,
    types: &Table<Slot, VariableType>,
    evidence: &Table<Slot, Evidence>,
    functions: &Vec<SyntheticFunction>,
)
    ensures
        final(uses)@ == uses_with(
            instr.model(),
            old(uses)@,
            owner,
            types@,
            evidence@,
            function_models(functions@),
        ),
    decreases instr,
{
    match instr {
        IRInst::Assign { dest, src } => {
            match direct_slot(dest, owner) {
                Some(slot) => pointer_assignment(slot, src, uses, owner, types, evidence),
                None => {
                    pointer_value(dest, uses, owner, types, evidence);
                    pointer_value(src, uses, owner, types, evidence);
                },
            }
        },
        IRInst::Return(value) => {
            if let Some(value) = value {
                pointer_value(value, uses, owner, types, evidence);
            }
        },
        IRInst::DeclareAndAssignVariable { variable, value, .. } => {
            pointer_assignment(Slot::Variable(*variable), value, uses, owner, types, evidence);
        },
        IRInst::AssignVariable { variable, value } => {
            pointer_assignment(Slot::Variable(*variable), value, uses, owner, types, evidence);
        },
        IRInst::LoadVariable { address, .. } => {
            pointer_address(address, uses, owner, types, evidence);
        },
        IRInst::StoreVariable { address, variable } => {
            pointer_address(address, uses, owner, types, evidence);
            pointer_use(uses, Slot::Variable(*variable), false);
        },
        IRInst::If { condition, then_branch, else_branch } => {
            pointer_value(condition, uses, owner, types, evidence);
            pointer_instruction_list(then_branch, uses, owner, types, evidence, functions);
            pointer_instruction_list(else_branch, uses, owner, types, evidence, functions);
        },
        IRInst::While { condition, body, .. } => {
            match condition {
                LoopCondition::Before { expression, .. } => pointer_value(
                    expression,
                    uses,
                    owner,
                    types,
                    evidence,
                ),
                LoopCondition::After { expression, .. } => pointer_value(
                    expression,
                    uses,
                    owner,
                    types,
                    evidence,
                ),
            }
            pointer_instruction_body(body, uses, owner, types, evidence, functions);
        },
        IRInst::CallSynthetic { function, arguments } => {
            pointer_arguments(*function, arguments, uses, owner, types, evidence, functions);
        },
        IRInst::Jump(target) => {
            pointer_value(target, uses, owner, types, evidence);
        },
        _ => {},
    }
}

fn pointer_instruction_list(
    list: &Vec<IRInst>,
    uses: &mut Table<Slot, PointerUse>,
    owner: SyntheticFunctionId,
    types: &Table<Slot, VariableType>,
    evidence: &Table<Slot, Evidence>,
    functions: &Vec<SyntheticFunction>,
)
    ensures
        final(uses)@ == uses_with_list(
            models(list@),
            old(uses)@,
            owner,
            types@,
            evidence@,
            function_models(functions@),
        ),
    decreases list,
{
    let ghost all = models(list@);
    let ghost start = uses@;
    assert(all.subrange(0, 0) =~= Seq::empty());
    let mut i: usize = 0;
    while i < list.len()
        invariant
            i <= list@.len(),
            all == models(list@),
            uses@ == uses_with_list(
                all.subrange(0, i as int),
                start,
                owner,
                types@,
                evidence@,
                function_models(functions@),
            ),
        decreases list@.len() - i,
    {
        let ghost prefix = all.subrange(0, i + 1);
        assert(prefix.drop_last() =~= all.subrange(0, i as int));
        assert(decreases_to!(list => list@[i as int]));
        pointer_instruction(&list[i], uses, owner, types, evidence, functions);
        i = i + 1;
    }
    assert(all.subrange(0, i as int) =~= all);
}

fn pointer_instruction_body(
    list: &Vec<(usize, IRInst)>,
    uses: &mut Table<Slot, PointerUse>,
    owner: SyntheticFunctionId,
    types: &Table<Slot, VariableType>,
    evidence: &Table<Slot, Evidence>,
    functions: &Vec<SyntheticFunction>,
)
    ensures
        final(uses)@ == uses_with_body(
            body_models(list@),
            old(uses)@,
            owner,
            types@,
            evidence@,
            function_models(functions@),
        ),
    decreases list,
{
    let ghost all = body_models(list@);
    let ghost start = uses@;
    assert(all.subrange(0, 0) =~= Seq::empty());
    let mut i: usize = 0;
    while i < list.len()
        invariant
            i <= list@.len(),
            all == body_models(list@),
            uses@ == uses_with_body(
                all.subrange(0, i as int),
                start,
                owner,
                types@,
                evidence@,
                function_models(functions@),
            ),
        decreases list@.len() - i,
    {
        let ghost prefix = all.subrange(0, i + 1);
        assert(prefix.drop_last() =~= all.subrange(0, i as int));
        assert(decreases_to!(list => list@[i as int]));
        pointer_instruction(&list[i].1, uses, owner, types, evidence, functions);
        i = i + 1;
    }
    assert(all.subrange(0, i as int) =~= all);
}

/// The derived addresses with those of an instruction.
pub open spec fn derived_with(
    instr: InstModel,
    derived: Seq<(Slot, Slot)>,
    owner: SyntheticFunctionId,
    types: Map<Slot, VariableType>,
    evidence: Map<Slot, Evidence>,
    functions: Seq<FunctionModel>,
) -> Seq<(Slot, Slot)>
    decreases instr,
{
    match instr {
        InstModel::Assign { dest, src } => match slot_in(dest, owner) {
            Some(slot) => with_derived(derived, slot, src, owner, types, evidence),
            None => derived,
        },
        InstModel::DeclareAndAssignVariable { variable, value, .. } => with_derived(
            derived,
            Slot::Variable(variable),
            value,
            owner,
            types,
            evidence,
        ),
        InstModel::AssignVariable { variable, value } => with_derived(
            derived,
            Slot::Variable(variable),
            value,
            owner,
            types,
            evidence,
        ),
        InstModel::If { then_branch, else_branch, .. } => derived_with_list(
            else_branch,
            derived_with_list(then_branch, derived, owner, types, evidence, functions),
            owner,
            types,
            evidence,
            functions,
        ),
        InstModel::While { body, .. } => derived_with_body(
            body,
            derived,
            owner,
            types,
            evidence,
            functions,
        ),
        InstModel::CallSynthetic { function, arguments } => derived_arguments(
            function,
            arguments,
            derived,
            owner,
            types,
            evidence,
            functions,
            arguments.len() as int,
        ),
        _ => derived,
    }
}

pub open spec fn derived_with_list(
    list: Seq<InstModel>,
    derived: Seq<(Slot, Slot)>,
    owner: SyntheticFunctionId,
    types: Map<Slot, VariableType>,
    evidence: Map<Slot, Evidence>,
    functions: Seq<FunctionModel>,
) -> Seq<(Slot, Slot)>
    decreases list,
{
    if list.len() == 0 {
        derived
    } else {
        derived_with(
            list[list.len() - 1],
            derived_with_list(list.drop_last(), derived, owner, types, evidence, functions),
            owner,
            types,
            evidence,
            functions,
        )
    }
}

pub open spec fn derived_with_body(
    list: Seq<(usize, InstModel)>,
    derived: Seq<(Slot, Slot)>,
    owner: SyntheticFunctionId,
    types: Map<Slot, VariableType>,
    evidence: Map<Slot, Evidence>,
    functions: Seq<FunctionModel>,
) -> Seq<(Slot, Slot)>
    decreases list,
{
    if list.len() == 0 {
        derived
    } else {
        derived_with(
            list[list.len() - 1].1,
            derived_with_body(list.drop_last(), derived, owner, types, evidence, functions),
            owner,
            types,
            evidence,
            functions,
        )
    }
}

fn derive(instr: &IRInst, derived: &mut Vec<(Slot, Slot)>, owner: SyntheticFunctionId, types: &Table<Slot, VariableType>, evidence: &Table<Slot, Evidence>, functions: &Vec<SyntheticFunction>)
    ensures
        final(derived)@ == derived_with(
            instr.model(),
            old(derived)@,
            owner,
            types@,
            evidence@,
            function_models(functions@),
        ),
    decreases instr,
{
    match instr {
        IRInst::Assign { dest, src } => {
            if let Some(slot) = direct_slot(dest, owner) {
                add_derived(derived, slot, src, owner, types, evidence);
            }
        },
        IRInst::DeclareAndAssignVariable { variable, value, .. } => {
            add_derived(derived, Slot::Variable(*variable), value, owner, types, evidence);
        },
        IRInst::AssignVariable { variable, value } => {
            add_derived(derived, Slot::Variable(*variable), value, owner, types, evidence);
        },
        IRInst::If { then_branch, else_branch, .. } => {
            derive_list(then_branch, derived, owner, types, evidence, functions);
            derive_list(else_branch, derived, owner, types, evidence, functions);
        },
        IRInst::While { body, .. } => {
            derive_body(body, derived, owner, types, evidence, functions);
        },
        IRInst::CallSynthetic { function, arguments } => {
            derive_arguments(*function, arguments, derived, owner, types, evidence, functions);
        },
        _ => {},
    }
}

fn derive_list(
    list: &Vec<IRInst>,
    derived: &mut Vec<(Slot, Slot)>,
    owner: SyntheticFunctionId,
    types: &Table<Slot, VariableType>,
    evidence: &Table<Slot, Evidence>,
    functions: &Vec<SyntheticFunction>,
)
    ensures
        final(derived)@ == derived_with_list(
            models(list@),
            old(derived)@,
            owner,
            types@,
            evidence@,
            function_models(functions@),
        ),
    decreases list,
{
    let ghost all = models(list@);
    let ghost start = derived@;
    assert(all.subrange(0, 0) =~= Seq::empty());
    let mut i: usize = 0;
    while i < list.len()
        invariant
            i <= list@.len(),
            all == models(list@),
            derived@ == derived_with_list(
                all.subrange(0, i as int),
                start,
                owner,
                types@,
                evidence@,
                function_models(functions@),
            ),
        decreases list@.len() - i,
    {
        let ghost prefix = all.subrange(0, i + 1);
        assert(prefix.drop_last() =~= all.subrange(0, i as int));
        assert(decreases_to!(list => list@[i as int]));
        derive(&list[i], derived, owner, types, evidence, functions);
        i = i + 1;
    }
    assert(all.subrange(0, i as int) =~= all);
}

fn derive_body(
    list: &Vec<(usize, IRInst)>,
    derived: &mut Vec<(Slot, Slot)>,
    owner: SyntheticFunctionId,
    types: &Table<Slot, VariableType>,
    evidence: &Table<Slot, Evidence>,
    functions: &Vec<SyntheticFunction>,
)
    ensures
        final(derived)@ == derived_with_body(
            body_models(list@),
            old(derived)@,
            owner,
            types@,
            evidence@,
            function_models(functions@),
        ),
    decreases list,
{
    let ghost all = body_models(list@);
    let ghost start = derived@;
    assert(all.subrange(0, 0) =~= Seq::empty());
    let mut i: usize = 0;
    while i < list.len()
        invariant
            i <= list@.len(),
            all == body_models(list@),
            derived@ == derived_with_body(
                all.subrange(0, i as int),
                start,
                owner,
                types@,
                evidence@,
                function_models(functions@),
            ),
        decreases list@.len() - i,
    {
        let ghost prefix = all.subrange(0, i + 1);
        assert(prefix.drop_last() =~= all.subrange(0, i as int));
        assert(decreases_to!(list => list@[i as int]));
        derive(&list[i].1, derived, owner, types, evidence, functions);
        i = i + 1;
    }
    assert(all.subrange(0, i as int) =~= all);
}


// ---------------------------------------------------------------------------
// Propagation of pointer uses

pub open spec fn both_uses(a: PointerUse, b: PointerUse) -> PointerUse {
    PointerUse { dereferenced: a.dereferenced || b.dereferenced, other: a.other || b.other }
}

/// The uses after the first `count` copies have shared theirs once.
pub open spec fn shared_uses(
    uses: Map<Slot, PointerUse>,
    copies: Seq<(Slot, Slot)>,
    count: int,
) -> Map<
    Slot,
    PointerUse,
>
    decreases count,
{
    if count <= 0 {
        uses
    } else {
        let before = shared_uses(uses, copies, count - 1);
        let dest = copies[count - 1].0;
        let src = copies[count - 1].1;
        let both = both_uses(use_at(before, dest), use_at(before, src));
        before.insert(dest, both).insert(src, both)
    }
}

/// The uses after the first `count` derived addresses have given theirs to their
/// bases. A derived value used for anything other than an address makes the base
/// ambiguous as well.
pub open spec fn based_uses(
    uses: Map<Slot, PointerUse>,
    derived: Seq<(Slot, Slot)>,
    count: int,
) -> Map<
    Slot,
    PointerUse,
>
    decreases count,
{
    if count <= 0 {
        uses
    } else {
        let before = based_uses(uses, derived, count - 1);
        let base = derived[count - 1].1;
        before.insert(base, both_uses(use_at(before, derived[count - 1].0), use_at(before, base)))
    }
}

/// The uses after the other uses of the first `count` derived addresses have been
/// given to their bases.
pub open spec fn other_based(
    uses: Map<Slot, PointerUse>,
    derived: Seq<(Slot, Slot)>,
    count: int,
) -> Map<
    Slot,
    PointerUse,
>
    decreases count,
{
    if count <= 0 {
        uses
    } else {
        let before = other_based(uses, derived, count - 1);
        let base = derived[count - 1].1;
        let own = use_at(before, base);
        before.insert(
            base,
            PointerUse { other: own.other || use_at(before, derived[count - 1].0).other, ..own },
        )
    }
}

/// The uses after the other uses of the first `count` copies have been shared.
pub open spec fn other_shared(
    uses: Map<Slot, PointerUse>,
    copies: Seq<(Slot, Slot)>,
    count: int,
) -> Map<
    Slot,
    PointerUse,
>
    decreases count,
{
    if count <= 0 {
        uses
    } else {
        let before = other_shared(uses, copies, count - 1);
        let dest = copies[count - 1].0;
        let src = copies[count - 1].1;
        let other = use_at(before, dest).other || use_at(before, src).other;
        let first = before.insert(dest, PointerUse { other, ..use_at(before, dest) });
        first.insert(src, PointerUse { other, ..use_at(first, src) })
    }
}

/// The uses after a number of rounds of sharing.
pub open spec fn spread_uses(
    uses: Map<Slot, PointerUse>,
    copies: Seq<(Slot, Slot)>,
    derived: Seq<(Slot, Slot)>,
    rounds: nat,
) -> Map<Slot, PointerUse>
    decreases rounds,
{
    if rounds == 0 {
        uses
    } else {
        based_uses(
            shared_uses(
                spread_uses(uses, copies, derived, (rounds - 1) as nat),
                copies,
                copies.len() as int,
            ),
            derived,
            derived.len() as int,
        )
    }
}

/// The uses after a number of rounds of sharing other uses.
pub open spec fn spread_other(
    uses: Map<Slot, PointerUse>,
    copies: Seq<(Slot, Slot)>,
    derived: Seq<(Slot, Slot)>,
    rounds: nat,
) -> Map<Slot, PointerUse>
    decreases rounds,
{
    if rounds == 0 {
        uses
    } else {
        other_based(
            other_shared(
                spread_other(uses, copies, derived, (rounds - 1) as nat),
                copies,
                copies.len() as int,
            ),
            derived,
            derived.len() as int,
        )
    }
}

proof fn lemma_ends_of_both(copies: Seq<(Slot, Slot)>, derived: Seq<(Slot, Slot)>, key: Slot)
    ensures
        is_end(copies, key) ==> is_end(copies + derived, key),
        is_end(derived, key) ==> is_end(copies + derived, key),
{
    let both = copies + derived;
    if is_end(copies, key) {
        let i = choose|i: int|
            0 <= i < copies.len() && ((#[trigger] copies[i]).0 == key || copies[i].1 == key);
        assert(both[i] == copies[i]);
    }
    if is_end(derived, key) {
        let i = choose|i: int|
            0 <= i < derived.len() && ((#[trigger] derived[i]).0 == key || derived[i].1 == key);
        assert(both[copies.len() + i] == derived[i]);
    }
}

/// How much a use says.
pub open spec fn uses_weight() -> spec_fn(PointerUse) -> nat {
    |u: PointerUse| (if u.dereferenced {
        1nat
    } else {
        0nat
    }) + (if u.other {
        1nat
    } else {
        0nat
    })
}

proof fn lemma_uses_rounds(
    uses: Map<Slot, PointerUse>,
    copies: Seq<(Slot, Slot)>,
    derived: Seq<(Slot, Slot)>,
    rounds: nat,
)
    ensures
        based_uses(
            shared_uses(spread_uses(uses, copies, derived, rounds), copies, copies.len() as int),
            derived,
            derived.len() as int,
        ) == spread_uses(uses, copies, derived, rounds) || rank(
            spread_uses(uses, copies, derived, rounds),
            copies + derived,
            uses_weight(),
            (copies + derived).len() as int,
        ) >= rounds,
    decreases rounds,
{
    if rounds > 0 {
        let before = spread_uses(uses, copies, derived, (rounds - 1) as nat);
        lemma_uses_rounds(uses, copies, derived, (rounds - 1) as nat);
        lemma_uses_step(before, copies, derived);
        lemma_round_raises(
            before,
            spread_uses(uses, copies, derived, rounds),
            copies + derived,
            uses_weight(),
        );
    }
}

/// A further round changes nothing.
pub proof fn law_uses_settles(
    uses: Map<Slot, PointerUse>,
    copies: Seq<(Slot, Slot)>,
    derived: Seq<(Slot, Slot)>,
    rounds: nat,
)
    requires
        rounds >= (copies + derived).len() * 6,
    ensures
        based_uses(
            shared_uses(spread_uses(uses, copies, derived, rounds), copies, copies.len() as int),
            derived,
            derived.len() as int,
        ) == spread_uses(uses, copies, derived, rounds),
{
    let settled = spread_uses(uses, copies, derived, rounds);
    let after = based_uses(
        shared_uses(spread_uses(uses, copies, derived, rounds), copies, copies.len() as int),
        derived,
        derived.len() as int,
    );
    let pairs = copies + derived;
    lemma_uses_rounds(uses, copies, derived, rounds);
    lemma_uses_step(settled, copies, derived);
    lemma_round_raises(settled, after, pairs, uses_weight());
    lemma_rank_bound(after, pairs, uses_weight(), 2, pairs.len() as int);
}

proof fn lemma_uses_stays(
    uses: Map<Slot, PointerUse>,
    copies: Seq<(Slot, Slot)>,
    derived: Seq<(Slot, Slot)>,
    rounds: nat,
    more: nat,
)
    requires
        based_uses(
            shared_uses(spread_uses(uses, copies, derived, rounds), copies, copies.len() as int),
            derived,
            derived.len() as int,
        ) == spread_uses(uses, copies, derived, rounds),
    ensures
        spread_uses(
            uses,
            copies,
            derived,
            rounds + more,
        ) == spread_uses(uses, copies, derived, rounds),
    decreases more,
{
    if more > 0 {
        lemma_uses_stays(uses, copies, derived, rounds, (more - 1) as nat);
    }
}

proof fn lemma_shared_uses(uses: Map<Slot, PointerUse>, copies: Seq<(Slot, Slot)>, count: int)
    requires
        0 <= count <= copies.len(),
    ensures
        grows(uses, shared_uses(uses, copies, count), uses_weight()),
        same_beyond(uses, shared_uses(uses, copies, count), copies),
    decreases count,
{
    if count > 0 {
        let before = shared_uses(uses, copies, count - 1);
        let after = shared_uses(uses, copies, count);
        lemma_shared_uses(uses, copies, count - 1);
        assert(grows(before, after, uses_weight()));
        lemma_grows_on(uses, before, after, uses_weight());
        assert forall|k: Slot| !is_end(copies, k) implies (#[trigger] uses.dom().contains(k)
            == after.dom().contains(k)) && (uses.dom().contains(k) ==> uses[k] == after[k]) by {
            assert(copies[count - 1].0 != k && copies[count - 1].1 != k);
            assert(uses.dom().contains(k) == before.dom().contains(k));
        }
    }
}

proof fn lemma_based_uses(uses: Map<Slot, PointerUse>, derived: Seq<(Slot, Slot)>, count: int)
    requires
        0 <= count <= derived.len(),
    ensures
        grows(uses, based_uses(uses, derived, count), uses_weight()),
        same_beyond(uses, based_uses(uses, derived, count), derived),
    decreases count,
{
    if count > 0 {
        let before = based_uses(uses, derived, count - 1);
        let after = based_uses(uses, derived, count);
        lemma_based_uses(uses, derived, count - 1);
        assert(grows(before, after, uses_weight()));
        lemma_grows_on(uses, before, after, uses_weight());
        assert forall|k: Slot| !is_end(derived, k) implies (#[trigger] uses.dom().contains(k)
            == after.dom().contains(k)) && (uses.dom().contains(k) ==> uses[k] == after[k]) by {
            assert(derived[count - 1].0 != k && derived[count - 1].1 != k);
            assert(uses.dom().contains(k) == before.dom().contains(k));
        }
    }
}

proof fn lemma_uses_step(
    uses: Map<Slot, PointerUse>,
    copies: Seq<(Slot, Slot)>,
    derived: Seq<(Slot, Slot)>,
)
    ensures
        ({
            let after = based_uses(
                shared_uses(uses, copies, copies.len() as int),
                derived,
                derived.len() as int,
            );
            grows(uses, after, uses_weight()) && same_beyond(uses, after, copies + derived)
        }),
{
    let middle = shared_uses(uses, copies, copies.len() as int);
    let after = based_uses(middle, derived, derived.len() as int);
    lemma_shared_uses(uses, copies, copies.len() as int);
    lemma_based_uses(middle, derived, derived.len() as int);
    lemma_grows_on(uses, middle, after, uses_weight());
    assert forall|k: Slot| !is_end(copies + derived, k) implies (#[trigger] uses.dom().contains(k)
        == after.dom().contains(k)) && (uses.dom().contains(k) ==> uses[k] == after[k]) by {
        lemma_ends_of_both(copies, derived, k);
        assert(uses.dom().contains(k) == middle.dom().contains(k));
    }
}

/// How much a use says.
pub open spec fn other_weight() -> spec_fn(PointerUse) -> nat {
    |u: PointerUse| (if u.dereferenced {
        1nat
    } else {
        0nat
    }) + (if u.other {
        1nat
    } else {
        0nat
    })
}

proof fn lemma_other_rounds(
    uses: Map<Slot, PointerUse>,
    copies: Seq<(Slot, Slot)>,
    derived: Seq<(Slot, Slot)>,
    rounds: nat,
)
    ensures
        other_based(
            other_shared(spread_other(uses, copies, derived, rounds), copies, copies.len() as int),
            derived,
            derived.len() as int,
        ) == spread_other(uses, copies, derived, rounds) || rank(
            spread_other(uses, copies, derived, rounds),
            copies + derived,
            other_weight(),
            (copies + derived).len() as int,
        ) >= rounds,
    decreases rounds,
{
    if rounds > 0 {
        let before = spread_other(uses, copies, derived, (rounds - 1) as nat);
        lemma_other_rounds(uses, copies, derived, (rounds - 1) as nat);
        lemma_other_step(before, copies, derived);
        lemma_round_raises(
            before,
            spread_other(uses, copies, derived, rounds),
            copies + derived,
            other_weight(),
        );
    }
}

/// A further round changes nothing.
pub proof fn law_other_settles(
    uses: Map<Slot, PointerUse>,
    copies: Seq<(Slot, Slot)>,
    derived: Seq<(Slot, Slot)>,
    rounds: nat,
)
    requires
        rounds >= (copies + derived).len() * 6,
    ensures
        other_based(
            other_shared(spread_other(uses, copies, derived, rounds), copies, copies.len() as int),
            derived,
            derived.len() as int,
        ) == spread_other(uses, copies, derived, rounds),
{
    let settled = spread_other(uses, copies, derived, rounds);
    let after = other_based(
        other_shared(spread_other(uses, copies, derived, rounds), copies, copies.len() as int),
        derived,
        derived.len() as int,
    );
    let pairs = copies + derived;
    lemma_other_rounds(uses, copies, derived, rounds);
    lemma_other_step(settled, copies, derived);
    lemma_round_raises(settled, after, pairs, other_weight());
    lemma_rank_bound(after, pairs, other_weight(), 2, pairs.len() as int);
}

proof fn lemma_other_stays(
    uses: Map<Slot, PointerUse>,
    copies: Seq<(Slot, Slot)>,
    derived: Seq<(Slot, Slot)>,
    rounds: nat,
    more: nat,
)
    requires
        other_based(
            other_shared(spread_other(uses, copies, derived, rounds), copies, copies.len() as int),
            derived,
            derived.len() as int,
        ) == spread_other(uses, copies, derived, rounds),
    ensures
        spread_other(
            uses,
            copies,
            derived,
            rounds + more,
        ) == spread_other(uses, copies, derived, rounds),
    decreases more,
{
    if more > 0 {
        lemma_other_stays(uses, copies, derived, rounds, (more - 1) as nat);
    }
}

proof fn lemma_other_shared(uses: Map<Slot, PointerUse>, copies: Seq<(Slot, Slot)>, count: int)
    requires
        0 <= count <= copies.len(),
    ensures
        grows(uses, other_shared(uses, copies, count), other_weight()),
        same_beyond(uses, other_shared(uses, copies, count), copies),
    decreases count,
{
    if count > 0 {
        let before = other_shared(uses, copies, count - 1);
        let after = other_shared(uses, copies, count);
        lemma_other_shared(uses, copies, count - 1);
        assert(grows(before, after, other_weight()));
        lemma_grows_on(uses, before, after, other_weight());
        assert forall|k: Slot| !is_end(copies, k) implies (#[trigger] uses.dom().contains(k)
            == after.dom().contains(k)) && (uses.dom().contains(k) ==> uses[k] == after[k]) by {
            assert(copies[count - 1].0 != k && copies[count - 1].1 != k);
            assert(uses.dom().contains(k) == before.dom().contains(k));
        }
    }
}

proof fn lemma_other_based(uses: Map<Slot, PointerUse>, derived: Seq<(Slot, Slot)>, count: int)
    requires
        0 <= count <= derived.len(),
    ensures
        grows(uses, other_based(uses, derived, count), other_weight()),
        same_beyond(uses, other_based(uses, derived, count), derived),
    decreases count,
{
    if count > 0 {
        let before = other_based(uses, derived, count - 1);
        let after = other_based(uses, derived, count);
        lemma_other_based(uses, derived, count - 1);
        assert(grows(before, after, other_weight()));
        lemma_grows_on(uses, before, after, other_weight());
        assert forall|k: Slot| !is_end(derived, k) implies (#[trigger] uses.dom().contains(k)
            == after.dom().contains(k)) && (uses.dom().contains(k) ==> uses[k] == after[k]) by {
            assert(derived[count - 1].0 != k && derived[count - 1].1 != k);
            assert(uses.dom().contains(k) == before.dom().contains(k));
        }
    }
}

proof fn lemma_other_step(
    uses: Map<Slot, PointerUse>,
    copies: Seq<(Slot, Slot)>,
    derived: Seq<(Slot, Slot)>,
)
    ensures
        ({
            let after = other_based(
                other_shared(uses, copies, copies.len() as int),
                derived,
                derived.len() as int,
            );
            grows(uses, after, other_weight()) && same_beyond(uses, after, copies + derived)
        }),
{
    let middle = other_shared(uses, copies, copies.len() as int);
    let after = other_based(middle, derived, derived.len() as int);
    lemma_other_shared(uses, copies, copies.len() as int);
    lemma_other_based(middle, derived, derived.len() as int);
    lemma_grows_on(uses, middle, after, other_weight());
    assert forall|k: Slot| !is_end(copies + derived, k) implies (#[trigger] uses.dom().contains(k)
        == after.dom().contains(k)) && (uses.dom().contains(k) ==> uses[k] == after[k]) by {
        lemma_ends_of_both(copies, derived, k);
        assert(uses.dom().contains(k) == middle.dom().contains(k));
    }
}

/// The uses with the bases of the first `count` derived addresses that are never
/// dereferenced: those additions are ordinary arithmetic.
pub open spec fn with_arithmetic(
    uses: Map<Slot, PointerUse>,
    derived: Seq<(Slot, Slot)>,
    count: int,
) -> Map<
    Slot,
    PointerUse,
>
    decreases count,
{
    if count <= 0 {
        uses
    } else {
        let before = with_arithmetic(uses, derived, count - 1);
        if use_at(before, derived[count - 1].0).dereferenced {
            before
        } else {
            with_use(before, derived[count - 1].1, false)
        }
    }
}

/// The uses when they have got everywhere.
pub open spec fn settled_uses(
    uses: Map<Slot, PointerUse>,
    copies: Seq<(Slot, Slot)>,
    derived: Seq<(Slot, Slot)>,
) -> Map<Slot, PointerUse> {
    let rounds = (copies + derived).len() * 6;
    spread_other(
        with_arithmetic(
            spread_uses(uses, copies, derived, rounds),
            derived,
            derived.len() as int,
        ),
        copies,
        derived,
        rounds,
    )
}

fn share_uses(
    uses: &mut Table<Slot, PointerUse>,
    copies: &Vec<(Slot, Slot)>,
    derived: &Vec<(Slot, Slot)>,
) -> (res: bool)
    ensures
        !res ==> final(uses)@ == old(uses)@,
        final(uses)@ == based_uses(
            shared_uses(old(uses)@, copies@, copies@.len() as int),
            derived@,
            derived@.len() as int,
        ),
{
    let ghost start = uses@;
    let mut changed: bool = false;
    let mut i: usize = 0;
    while i < copies.len()
        invariant
            i <= copies@.len(),
            uses@ == shared_uses(start, copies@, i as int),
            !changed ==> uses@ == start,
        decreases copies@.len() - i,
    {
        let (dest, src) = copies[i];
        let ghost current = uses@;
        let left: PointerUse = find_use(uses, dest);
        let right: PointerUse = find_use(uses, src);
        let both = PointerUse {
            dereferenced: left.dereferenced || right.dereferenced,
            other: left.other || right.other,
        };
        if !uses.contains(dest) || !uses.contains(src) || left != both || right != both {
            changed = true;
        }
        uses.insert(dest, both);
        uses.insert(src, both);
        assert(!changed ==> uses@ =~= current);
        i = i + 1;
    }
    let ghost middle = uses@;
    let mut i: usize = 0;
    while i < derived.len()
        invariant
            i <= derived@.len(),
            uses@ == based_uses(middle, derived@, i as int),
            !changed ==> uses@ == start,
        decreases derived@.len() - i,
    {
        let (dest, base) = derived[i];
        let ghost current = uses@;
        let left: PointerUse = find_use(uses, dest);
        let right: PointerUse = find_use(uses, base);
        let both = PointerUse {
            dereferenced: left.dereferenced || right.dereferenced,
            other: left.other || right.other,
        };
        if !uses.contains(base) || right != both {
            changed = true;
        }
        uses.insert(base, both);
        assert(!changed ==> uses@ =~= current);
        i = i + 1;
    }
    changed
}

fn share_other(
    uses: &mut Table<Slot, PointerUse>,
    copies: &Vec<(Slot, Slot)>,
    derived: &Vec<(Slot, Slot)>,
) -> (res: bool)
    ensures
        !res ==> final(uses)@ == old(uses)@,
        final(uses)@ == other_based(
            other_shared(old(uses)@, copies@, copies@.len() as int),
            derived@,
            derived@.len() as int,
        ),
{
    let ghost start = uses@;
    let mut changed: bool = false;
    let mut i: usize = 0;
    while i < copies.len()
        invariant
            i <= copies@.len(),
            uses@ == other_shared(start, copies@, i as int),
            !changed ==> uses@ == start,
        decreases copies@.len() - i,
    {
        let (dest, src) = copies[i];
        let ghost current = uses@;
        let left: PointerUse = find_use(uses, dest);
        let other: bool = left.other || find_use(uses, src).other;
        if !uses.contains(dest) || left.other != other {
            changed = true;
        }
        uses.insert(dest, PointerUse { dereferenced: left.dereferenced, other });
        let right: PointerUse = find_use(uses, src);
        if !uses.contains(src) || right.other != other {
            changed = true;
        }
        uses.insert(src, PointerUse { dereferenced: right.dereferenced, other });
        assert(!changed ==> uses@ =~= current);
        i = i + 1;
    }
    let ghost middle = uses@;
    let mut i: usize = 0;
    while i < derived.len()
        invariant
            i <= derived@.len(),
            uses@ == other_based(middle, derived@, i as int),
            !changed ==> uses@ == start,
        decreases derived@.len() - i,
    {
        let (dest, base) = derived[i];
        let ghost current = uses@;
        let left: PointerUse = find_use(uses, dest);
        let own: PointerUse = find_use(uses, base);
        if !uses.contains(base) || (left.other && !own.other) {
            changed = true;
        }
        uses.insert(
            base,
            PointerUse { dereferenced: own.dereferenced, other: own.other || left.other },
        );
        assert(!changed ==> uses@ =~= current);
        i = i + 1;
    }
    changed
}

fn propagate_pointer_uses(
    uses: &mut Table<Slot, PointerUse>,
    copies: &Vec<(Slot, Slot)>,
    derived: &Vec<(Slot, Slot)>,
)
    ensures
        final(uses)@ == settled_uses(old(uses)@, copies@, derived@),
{
    let ghost start = uses@;
    let rounds: u128 = (copies.len() as u128 + derived.len() as u128) * 6;
    assert((copies@ + derived@).len() == copies@.len() + derived@.len());
    let mut round: u128 = 0;
    let mut going: bool = true;
    while going && round < rounds
        invariant
            round <= rounds,
            going ==> uses@ == spread_uses(start, copies@, derived@, round as nat),
            !going ==> uses@ == spread_uses(start, copies@, derived@, rounds as nat),
        decreases rounds - round, going as int,
    {
        going = share_uses(uses, copies, derived);
        if !going {
            proof {
                lemma_uses_stays(
                    start,
                    copies@,
                    derived@,
                    round as nat,
                    (rounds - round) as nat,
                );
            }
        } else {
            round = round + 1;
        }
    }
    let ghost middle = uses@;
    let mut i: usize = 0;
    while i < derived.len()
        invariant
            i <= derived@.len(),
            uses@ == with_arithmetic(middle, derived@, i as int),
        decreases derived@.len() - i,
    {
        let (dest, base) = derived[i];
        if !find_use(uses, dest).dereferenced {
            pointer_use(uses, base, false);
        }
        i = i + 1;
    }
    let ghost last = uses@;
    let mut round: u128 = 0;
    let mut going: bool = true;
    while going && round < rounds
        invariant
            round <= rounds,
            going ==> uses@ == spread_other(last, copies@, derived@, round as nat),
            !going ==> uses@ == spread_other(last, copies@, derived@, rounds as nat),
        decreases rounds - round, going as int,
    {
        going = share_other(uses, copies, derived);
        if !going {
            proof {
                lemma_other_stays(
                    last,
                    copies@,
                    derived@,
                    round as nat,
                    (rounds - round) as nat,
                );
            }
        } else {
            round = round + 1;
        }
    }
}

// ---------------------------------------------------------------------------
// Pointees

/// The type of a slot that holds a scalar.
pub open spec fn scalar_of(
    types: Map<Slot, VariableType>,
    evidence: Map<Slot, Evidence>,
    slot: Slot,
) -> Option<VariableType> {
    match slot_type(types, evidence, slot) {
        Some(ty) => if pointee_width_of(ty) is Some {
            Some(ty)
        } else {
            None
        },
        None => None,
    }
}

fn scalar_type(
    types: &Table<Slot, VariableType>,
    evidence: &Table<Slot, Evidence>,
    slot: Slot,
) -> (res: Option<VariableType>)
    ensures
        res == scalar_of(types@, evidence@, slot),
{
    match find_type(types, evidence, slot) {
        Some(ty) => if pointee_width(&ty).is_some() {
            Some(ty)
        } else {
            None
        },
        None => None,
    }
}

/// The slot that an access of the type goes through.
pub open spec fn accessed(
    address: IRExpr,
    ty: VariableType,
    owner: SyntheticFunctionId,
    types: Map<Slot, VariableType>,
) -> Option<Slot> {
    let base = match address {
        IRExpr::MemoryAddress { address: inner, size } => if size is Some && size
            != pointee_width_of(ty) {
            None
        } else {
            slot_in(*inner, owner)
        },
        _ => slot_in(address, owner),
    };
    match base {
        Some(slot) => if slot_width(types, slot) == Some(8usize) {
            Some(slot)
        } else {
            None
        },
        None => None,
    }
}

/// The pointees with that of an access.
pub open spec fn recorded(
    address: IRExpr,
    ty: VariableType,
    pointees: Map<Slot, PointeeEvidence>,
    owner: SyntheticFunctionId,
    types: Map<Slot, VariableType>,
) -> Map<Slot, PointeeEvidence> {
    match accessed(address, ty, owner, types) {
        Some(slot) => pointees.insert(
            slot,
            pointee_at(pointees, slot).merged(
                PointeeEvidence { candidate: Some(ty), conflicting: false },
            ),
        ),
        None => pointees,
    }
}

fn record_pointee(
    address: &IRExpr,
    ty: VariableType,
    pointees: &mut Table<Slot, PointeeEvidence>,
    owner: SyntheticFunctionId,
    types: &Table<Slot, VariableType>,
)
    ensures
        final(pointees)@ == recorded(*address, ty, old(pointees)@, owner, types@),
{
    let base: Option<Slot> = match address {
        IRExpr::MemoryAddress { address: inner, size } => {
            let other: bool = match (size, pointee_width(&ty)) {
                (Some(size), Some(width)) => *size != width,
                (Some(_), None) => true,
                _ => false,
            };
            if other {
                None
            } else {
                direct_slot(inner, owner)
            }
        },
        _ => direct_slot(address, owner),
    };
    if let Some(slot) = base {
        if let Some(width) = find_width(types, slot) {
            if width == 8 {
                let before: PointeeEvidence = find_pointee(pointees, slot);
                let merged: PointeeEvidence = before.merge(
                    &PointeeEvidence { candidate: Some(ty), conflicting: false },
                );
                pointees.insert(slot, merged);
            }
        }
    }
}

/// The pointees with that of an access of a slot.
pub open spec fn recorded_slot(
    address: IRExpr,
    slot: Slot,
    pointees: Map<Slot, PointeeEvidence>,
    owner: SyntheticFunctionId,
    types: Map<Slot, VariableType>,
    evidence: Map<Slot, Evidence>,
) -> Map<Slot, PointeeEvidence> {
    match scalar_of(types, evidence, slot) {
        Some(ty) => recorded(address, ty, pointees, owner, types),
        None => pointees,
    }
}

fn record_slot(
    address: &IRExpr,
    slot: Slot,
    pointees: &mut Table<Slot, PointeeEvidence>,
    owner: SyntheticFunctionId,
    types: &Table<Slot, VariableType>,
    evidence: &Table<Slot, Evidence>,
)
    ensures
        final(pointees)@ == recorded_slot(
            *address,
            slot,
            old(pointees)@,
            owner,
            types@,
            evidence@,
        ),
{
    if let Some(ty) = scalar_type(types, evidence, slot) {
        record_pointee(address, ty, pointees, owner, types);
    }
}

/// The pointees with that of a slot that is loaded.
pub open spec fn assigned_pointee(
    dest: Slot,
    value: IRExpr,
    pointees: Map<Slot, PointeeEvidence>,
    owner: SyntheticFunctionId,
    types: Map<Slot, VariableType>,
    evidence: Map<Slot, Evidence>,
) -> Map<Slot, PointeeEvidence> {
    match value {
        IRExpr::Deref(address) => recorded_slot(*address, dest, pointees, owner, types, evidence),
        _ => pointees,
    }
}

fn pointee_assignment(
    dest: Slot,
    value: &IRExpr,
    pointees: &mut Table<Slot, PointeeEvidence>,
    owner: SyntheticFunctionId,
    types: &Table<Slot, VariableType>,
    evidence: &Table<Slot, Evidence>,
)
    ensures
        final(pointees)@ == assigned_pointee(
            dest,
            *value,
            old(pointees)@,
            owner,
            types@,
            evidence@,
        ),
{
    if let IRExpr::Deref(address) = value {
        record_slot(address, dest, pointees, owner, types, evidence);
    }
}

/// The pointees with that of a slot that is stored.
pub open spec fn stored_pointee(
    dest: IRExpr,
    src: IRExpr,
    pointees: Map<Slot, PointeeEvidence>,
    owner: SyntheticFunctionId,
    types: Map<Slot, VariableType>,
    evidence: Map<Slot, Evidence>,
) -> Map<Slot, PointeeEvidence> {
    match (dest, slot_in(src, owner)) {
        (IRExpr::Deref(address), Some(slot)) => recorded_slot(
            *address,
            slot,
            pointees,
            owner,
            types,
            evidence,
        ),
        _ => pointees,
    }
}

fn pointee_store(
    dest: &IRExpr,
    src: &IRExpr,
    pointees: &mut Table<Slot, PointeeEvidence>,
    owner: SyntheticFunctionId,
    types: &Table<Slot, VariableType>,
    evidence: &Table<Slot, Evidence>,
)
    ensures
        final(pointees)@ == stored_pointee(
            *dest,
            *src,
            old(pointees)@,
            owner,
            types@,
            evidence@,
        ),
{
    if let (IRExpr::Deref(address), Some(slot)) = (dest, direct_slot(src, owner)) {
        record_slot(address, slot, pointees, owner, types, evidence);
    }
}

/// The pointees with those of the first `count` arguments of a call.
pub open spec fn argument_pointees(
    function: SyntheticFunctionId,
    arguments: Seq<IRExpr>,
    pointees: Map<Slot, PointeeEvidence>,
    owner: SyntheticFunctionId,
    types: Map<Slot, VariableType>,
    evidence: Map<Slot, Evidence>,
    functions: Seq<FunctionModel>,
    count: int,
) -> Map<Slot, PointeeEvidence>
    decreases count,
{
    if count <= 0 {
        pointees
    } else {
        let before = argument_pointees(
            function,
            arguments,
            pointees,
            owner,
            types,
            evidence,
            functions,
            count - 1,
        );
        match callee_slot(function, functions, count - 1) {
            Some(dest) => assigned_pointee(
                dest,
                arguments[count - 1],
                before,
                owner,
                types,
                evidence,
            ),
            None => before,
        }
    }
}

fn pointee_arguments(
    function: SyntheticFunctionId,
    arguments: &Vec<IRExpr>,
    pointees: &mut Table<Slot, PointeeEvidence>,
    owner: SyntheticFunctionId,
    types: &Table<Slot, VariableType>,
    evidence: &Table<Slot, Evidence>,
    functions: &Vec<SyntheticFunction>,
)
    ensures
        final(pointees)@ == argument_pointees(
            function,
            arguments@,
            old(pointees)@,
            owner,
            types@,
            evidence@,
            function_models(functions@),
            arguments@.len() as int,
        ),
{
    let ghost start = pointees@;
    let mut i: usize = 0;
    while i < arguments.len()
        invariant
            i <= arguments@.len(),
            pointees@ == argument_pointees(
                function,
                arguments@,
                start,
                owner,
                types@,
                evidence@,
                function_models(functions@),
                i as int,
            ),
        decreases arguments@.len() - i,
    {
        if let Some(dest) = find_callee_slot(function, functions, i) {
            pointee_assignment(dest, &arguments[i], pointees, owner, types, evidence);
        }
        i = i + 1;
    }
}

/// The pointees with those of an instruction.
pub open spec fn pointed_with(
    instr: InstModel,
    pointees: Map<Slot, PointeeEvidence>,
    owner: SyntheticFunctionId,
    types: Map<Slot, VariableType>,
    evidence: Map<Slot, Evidence>,
    functions: Seq<FunctionModel>,
) -> Map<Slot, PointeeEvidence>
    decreases instr,
{
    match instr {
        InstModel::Assign { dest, src } => stored_pointee(dest, src, match slot_in(dest, owner) {
            Some(slot) => assigned_pointee(slot, src, pointees, owner, types, evidence),
            None => pointees,
        }, owner, types, evidence),
        InstModel::DeclareAndAssignVariable { variable, value, .. } => assigned_pointee(
            Slot::Variable(variable),
            value,
            pointees,
            owner,
            types,
            evidence,
        ),
        InstModel::AssignVariable { variable, value } => assigned_pointee(
            Slot::Variable(variable),
            value,
            pointees,
            owner,
            types,
            evidence,
        ),
        InstModel::LoadVariable { variable, address } => recorded_slot(
            address,
            Slot::Variable(variable),
            pointees,
            owner,
            types,
            evidence,
        ),
        InstModel::StoreVariable { address, variable } => recorded_slot(
            address,
            Slot::Variable(variable),
            pointees,
            owner,
            types,
            evidence,
        ),
        InstModel::If { then_branch, else_branch, .. } => pointed_with_list(
            else_branch,
            pointed_with_list(then_branch, pointees, owner, types, evidence, functions),
            owner,
            types,
            evidence,
            functions,
        ),
        InstModel::While { body, .. } => pointed_with_body(
            body,
            pointees,
            owner,
            types,
            evidence,
            functions,
        ),
        InstModel::CallSynthetic { function, arguments } => argument_pointees(
            function,
            arguments,
            pointees,
            owner,
            types,
            evidence,
            functions,
            arguments.len() as int,
        ),
        _ => pointees,
    }
}

pub open spec fn pointed_with_list(
    list: Seq<InstModel>,
    pointees: Map<Slot, PointeeEvidence>,
    owner: SyntheticFunctionId,
    types: Map<Slot, VariableType>,
    evidence: Map<Slot, Evidence>,
    functions: Seq<FunctionModel>,
) -> Map<Slot, PointeeEvidence>
    decreases list,
{
    if list.len() == 0 {
        pointees
    } else {
        pointed_with(
            list[list.len() - 1],
            pointed_with_list(list.drop_last(), pointees, owner, types, evidence, functions),
            owner,
            types,
            evidence,
            functions,
        )
    }
}

pub open spec fn pointed_with_body(
    list: Seq<(usize, InstModel)>,
    pointees: Map<Slot, PointeeEvidence>,
    owner: SyntheticFunctionId,
    types: Map<Slot, VariableType>,
    evidence: Map<Slot, Evidence>,
    functions: Seq<FunctionModel>,
) -> Map<Slot, PointeeEvidence>
    decreases list,
{
    if list.len() == 0 {
        pointees
    } else {
        pointed_with(
            list[list.len() - 1].1,
            pointed_with_body(list.drop_last(), pointees, owner, types, evidence, functions),
            owner,
            types,
            evidence,
            functions,
        )
    }
}

fn pointee_instruction(
    instr: &IRInst,
    pointees: &mut Table<Slot, PointeeEvidence>,
    owner: SyntheticFunctionId,
    types: &Table<Slot, VariableType>,
    evidence: &Table<Slot, Evidence>,
    functions: &Vec<SyntheticFunction>,
)
    ensures
        final(pointees)@ == pointed_with(
            instr.model(),
            old(pointees)@,
            owner,
            types@,
            evidence@,
            function_models(functions@),
        ),
    decreases instr,
{
    match instr {
        IRInst::Assign { dest, src } => {
            if let Some(slot) = direct_slot(dest, owner) {
                pointee_assignment(slot, src, pointees, owner, types, evidence);
            }
            pointee_store(dest, src, pointees, owner, types, evidence);
        },
        IRInst::DeclareAndAssignVariable { variable, value, .. } => {
            pointee_assignment(Slot::Variable(*variable), value, pointees, owner, types, evidence);
        },
        IRInst::AssignVariable { variable, value } => {
            pointee_assignment(Slot::Variable(*variable), value, pointees, owner, types, evidence);
        },
        IRInst::LoadVariable { variable, address } => {
            record_slot(address, Slot::Variable(*variable), pointees, owner, types, evidence);
        },
        IRInst::StoreVariable { address, variable } => {
            record_slot(address, Slot::Variable(*variable), pointees, owner, types, evidence);
        },
        IRInst::If { then_branch, else_branch, .. } => {
            pointee_instruction_list(then_branch, pointees, owner, types, evidence, functions);
            pointee_instruction_list(else_branch, pointees, owner, types, evidence, functions);
        },
        IRInst::While { body, .. } => {
            pointee_instruction_body(body, pointees, owner, types, evidence, functions);
        },
        IRInst::CallSynthetic { function, arguments } => {
            pointee_arguments(*function, arguments, pointees, owner, types, evidence, functions);
        },
        _ => {},
    }
}

fn pointee_instruction_list(
    list: &Vec<IRInst>,
    pointees: &mut Table<Slot, PointeeEvidence>,
    owner: SyntheticFunctionId,
    types: &Table<Slot, VariableType>,
    evidence: &Table<Slot, Evidence>,
    functions: &Vec<SyntheticFunction>,
)
    ensures
        final(pointees)@ == pointed_with_list(
            models(list@),
            old(pointees)@,
            owner,
            types@,
            evidence@,
            function_models(functions@),
        ),
    decreases list,
{
    let ghost all = models(list@);
    let ghost start = pointees@;
    assert(all.subrange(0, 0) =~= Seq::empty());
    let mut i: usize = 0;
    while i < list.len()
        invariant
            i <= list@.len(),
            all == models(list@),
            pointees@ == pointed_with_list(
                all.subrange(0, i as int),
                start,
                owner,
                types@,
                evidence@,
                function_models(functions@),
            ),
        decreases list@.len() - i,
    {
        let ghost prefix = all.subrange(0, i + 1);
        assert(prefix.drop_last() =~= all.subrange(0, i as int));
        assert(decreases_to!(list => list@[i as int]));
        pointee_instruction(&list[i], pointees, owner, types, evidence, functions);
        i = i + 1;
    }
    assert(all.subrange(0, i as int) =~= all);
}

fn pointee_instruction_body(
    list: &Vec<(usize, IRInst)>,
    pointees: &mut Table<Slot, PointeeEvidence>,
    owner: SyntheticFunctionId,
    types: &Table<Slot, VariableType>,
    evidence: &Table<Slot, Evidence>,
    functions: &Vec<SyntheticFunction>,
)
    ensures
        final(pointees)@ == pointed_with_body(
            body_models(list@),
            old(pointees)@,
            owner,
            types@,
            evidence@,
            function_models(functions@),
        ),
    decreases list,
{
    let ghost all = body_models(list@);
    let ghost start = pointees@;
    assert(all.subrange(0, 0) =~= Seq::empty());
    let mut i: usize = 0;
    while i < list.len()
        invariant
            i <= list@.len(),
            all == body_models(list@),
            pointees@ == pointed_with_body(
                all.subrange(0, i as int),
                start,
                owner,
                types@,
                evidence@,
                function_models(functions@),
            ),
        decreases list@.len() - i,
    {
        let ghost prefix = all.subrange(0, i + 1);
        assert(prefix.drop_last() =~= all.subrange(0, i as int));
        assert(decreases_to!(list => list@[i as int]));
        pointee_instruction(&list[i].1, pointees, owner, types, evidence, functions);
        i = i + 1;
    }
    assert(all.subrange(0, i as int) =~= all);
}


/// The pointees after the first `count` copies have shared theirs once.
pub open spec fn shared_pointees(
    pointees: Map<Slot, PointeeEvidence>,
    copies: Seq<(Slot, Slot)>,
    count: int,
) -> Map<Slot, PointeeEvidence>
    decreases count,
{
    if count <= 0 {
        pointees
    } else {
        let before = shared_pointees(pointees, copies, count - 1);
        let dest = copies[count - 1].0;
        let src = copies[count - 1].1;
        let both = pointee_at(before, dest).merged(pointee_at(before, src));
        before.insert(dest, both).insert(src, both)
    }
}

/// The pointees after a number of rounds of sharing.
pub open spec fn spread_pointees(
    pointees: Map<Slot, PointeeEvidence>,
    copies: Seq<(Slot, Slot)>,
    rounds: nat,
) -> Map<Slot, PointeeEvidence>
    decreases rounds,
{
    if rounds == 0 {
        pointees
    } else {
        shared_pointees(
            spread_pointees(pointees, copies, (rounds - 1) as nat),
            copies,
            copies.len() as int,
        )
    }
}

/// How much the evidence of a pointee says.
pub open spec fn pointees_weight() -> spec_fn(PointeeEvidence) -> nat {
    |p: PointeeEvidence|
        (match (p.conflicting, p.candidate) {
            (false, None) => 0nat,
            (false, Some(_)) => 1nat,
            (true, Some(_)) => 2nat,
            (true, None) => 3nat,
        })
}

proof fn lemma_pointees_rounds(
    pointees: Map<Slot, PointeeEvidence>,
    copies: Seq<(Slot, Slot)>,
    rounds: nat,
)
    ensures
        shared_pointees(
            spread_pointees(pointees, copies, rounds),
            copies,
            copies.len() as int,
        ) == spread_pointees(pointees, copies, rounds) || rank(
            spread_pointees(pointees, copies, rounds),
            copies,
            pointees_weight(),
            (copies).len() as int,
        ) >= rounds,
    decreases rounds,
{
    if rounds > 0 {
        let before = spread_pointees(pointees, copies, (rounds - 1) as nat);
        lemma_pointees_rounds(pointees, copies, (rounds - 1) as nat);
        lemma_pointees_step(before, copies);
        lemma_round_raises(
            before,
            spread_pointees(pointees, copies, rounds),
            copies,
            pointees_weight(),
        );
    }
}

/// A further round changes nothing.
pub proof fn law_pointees_settles(
    pointees: Map<Slot, PointeeEvidence>,
    copies: Seq<(Slot, Slot)>,
    rounds: nat,
)
    requires
        rounds >= (copies).len() * 8,
    ensures
        shared_pointees(
            spread_pointees(pointees, copies, rounds),
            copies,
            copies.len() as int,
        ) == spread_pointees(pointees, copies, rounds),
{
    let settled = spread_pointees(pointees, copies, rounds);
    let after = shared_pointees(
        spread_pointees(pointees, copies, rounds),
        copies,
        copies.len() as int,
    );
    let pairs = copies;
    lemma_pointees_rounds(pointees, copies, rounds);
    lemma_pointees_step(settled, copies);
    lemma_round_raises(settled, after, pairs, pointees_weight());
    lemma_rank_bound(after, pairs, pointees_weight(), 3, pairs.len() as int);
}

proof fn lemma_pointees_stays(
    pointees: Map<Slot, PointeeEvidence>,
    copies: Seq<(Slot, Slot)>,
    rounds: nat,
    more: nat,
)
    requires
        shared_pointees(
            spread_pointees(pointees, copies, rounds),
            copies,
            copies.len() as int,
        ) == spread_pointees(pointees, copies, rounds),
    ensures
        spread_pointees(
            pointees,
            copies,
            rounds + more,
        ) == spread_pointees(pointees, copies, rounds),
    decreases more,
{
    if more > 0 {
        lemma_pointees_stays(pointees, copies, rounds, (more - 1) as nat);
    }
}

proof fn lemma_shared_pointees(
    pointees: Map<Slot, PointeeEvidence>,
    copies: Seq<(Slot, Slot)>,
    count: int,
)
    requires
        0 <= count <= copies.len(),
    ensures
        grows(pointees, shared_pointees(pointees, copies, count), pointees_weight()),
        same_beyond(pointees, shared_pointees(pointees, copies, count), copies),
    decreases count,
{
    if count > 0 {
        let before = shared_pointees(pointees, copies, count - 1);
        let after = shared_pointees(pointees, copies, count);
        lemma_shared_pointees(pointees, copies, count - 1);
        assert(grows(before, after, pointees_weight()));
        lemma_grows_on(pointees, before, after, pointees_weight());
        assert forall|k: Slot| !is_end(copies, k) implies (#[trigger] pointees.dom().contains(k)
            == after.dom().contains(
                k,
            )) && (pointees.dom().contains(k) ==> pointees[k] == after[k]) by {
            assert(copies[count - 1].0 != k && copies[count - 1].1 != k);
            assert(pointees.dom().contains(k) == before.dom().contains(k));
        }
    }
}

proof fn lemma_pointees_step(pointees: Map<Slot, PointeeEvidence>, copies: Seq<(Slot, Slot)>)
    ensures
        grows(pointees, shared_pointees(pointees, copies, copies.len() as int), pointees_weight()),
        same_beyond(pointees, shared_pointees(pointees, copies, copies.len() as int), copies),
{
    lemma_shared_pointees(pointees, copies, copies.len() as int);
}

/// Shares the pointees along copies until nothing changes.
fn propagate_pointees(pointees: &mut Table<Slot, PointeeEvidence>, copies: &Vec<(Slot, Slot)>)
    ensures
        final(pointees)@ == spread_pointees(old(pointees)@, copies@, copies@.len() * 8),
{
    let ghost start = pointees@;
    let rounds: u128 = (copies.len() as u128) * 8;
    let mut round: u128 = 0;
    let mut going: bool = true;
    while going && round < rounds
        invariant
            round <= rounds,
            rounds == copies@.len() * 8,
            going ==> pointees@ == spread_pointees(start, copies@, round as nat),
            !going ==> pointees@ == spread_pointees(start, copies@, rounds as nat),
        decreases rounds - round, going as int,
    {
        going = share_pointees(pointees, copies);
        if !going {
            proof {
                lemma_pointees_stays(start, copies@, round as nat, (rounds - round) as nat);
            }
        } else {
            round = round + 1;
        }
    }
}

/// Shares the pointees along copies once, and returns whether they changed.
fn share_pointees(pointees: &mut Table<Slot, PointeeEvidence>, copies: &Vec<(Slot, Slot)>) -> (res:
    bool)
    ensures
        final(pointees)@ == shared_pointees(old(pointees)@, copies@, copies@.len() as int),
        !res ==> final(pointees)@ == old(pointees)@,
{
    let ghost before = pointees@;
    let mut changed: bool = false;
    let mut i: usize = 0;
    while i < copies.len()
        invariant
            i <= copies@.len(),
            pointees@ == shared_pointees(before, copies@, i as int),
            !changed ==> pointees@ == before,
        decreases copies@.len() - i,
    {
        let (dest, src) = copies[i];
        let ghost current = pointees@;
        let left: PointeeEvidence = find_pointee(pointees, dest);
        let right: PointeeEvidence = find_pointee(pointees, src);
        let both: PointeeEvidence = left.merge(&right);
        if !pointees.contains(dest) || !pointees.contains(src) || !left.same(&both) || !right.same(
            &both,
        ) {
            changed = true;
        }
        pointees.insert(dest, both.copied());
        pointees.insert(src, both);
        assert(!changed ==> pointees@ =~= current);
        i = i + 1;
    }
    changed
}

// ---------------------------------------------------------------------------
// Types

/// All that is known of the slots of a program.
pub struct AnalysisModel {
    pub evidence: Map<Slot, Evidence>,
    pub uses: Map<Slot, PointerUse>,
    pub pointees: Map<Slot, PointeeEvidence>,
}

pub struct Analysis {
    pub evidence: Table<Slot, Evidence>,
    pub uses: Table<Slot, PointerUse>,
    pub pointees: Table<Slot, PointeeEvidence>,
}

impl AnalysisModel {
    /// The inferred type of a slot: an integer, or a pointer where it is only
    /// dereferenced.
    pub open spec fn typed(self, slot: Slot, original: VariableType) -> VariableType {
        let ty = integer_type(self.evidence, slot, original);
        let used = use_at(self.uses, slot);
        if ty != VariableType::Unknown(Some(8)) || !used.dereferenced || used.other || evidence_at(
            self.evidence,
            slot,
        ).integer {
            ty
        } else {
            match pointee_at(self.pointees, slot).candidate {
                Some(pointee) => VariableType::Pointer(Box::new(pointee)),
                None => VariableType::UnknownPointer,
            }
        }
    }
}

impl Analysis {
    pub open spec fn model(self) -> AnalysisModel {
        AnalysisModel {
            evidence: self.evidence@,
            uses: self.uses@,
            pointees: self.pointees@,
        }
    }

    fn infer(&self, slot: Slot, original: &VariableType) -> (res: VariableType)
        ensures
            res == self.model().typed(slot, *original),
    {
        let ty: VariableType = inferred(&self.evidence, slot, original);
        let used: PointerUse = find_use(&self.uses, slot);
        let wide: bool = match &ty {
            VariableType::Unknown(Some(size)) => *size == 8,
            _ => false,
        };
        if !wide || !used.dereferenced || used.other || find_evidence(
            &self.evidence,
            slot,
        ).integer {
            return ty;
        }
        match find_pointee(&self.pointees, slot).candidate {
            Some(pointee) => VariableType::Pointer(Box::new(pointee)),
            None => VariableType::UnknownPointer,
        }
    }
}

/// The instruction with the types of its declarations inferred.
pub open spec fn retyped(instr: InstModel, analysis: AnalysisModel) -> InstModel
    decreases instr,
{
    match instr {
        InstModel::DeclareVariable { variable, ty } => InstModel::DeclareVariable {
            variable,
            ty: analysis.typed(Slot::Variable(variable), ty),
        },
        InstModel::DeclareAndAssignVariable {
            variable,
            ty,
            value,
        } => InstModel::DeclareAndAssignVariable {
            variable,
            ty: analysis.typed(Slot::Variable(variable), ty),
            value,
        },
        InstModel::If { condition, then_branch, else_branch } => InstModel::If {
            condition,
            then_branch: retyped_list(then_branch, analysis),
            else_branch: retyped_list(else_branch, analysis),
        },
        InstModel::While { label, entry_offset, condition, body } => InstModel::While {
            label,
            entry_offset,
            condition,
            body: retyped_body(body, analysis),
        },
        _ => instr,
    }
}

pub open spec fn retyped_list(list: Seq<InstModel>, analysis: AnalysisModel) -> Seq<InstModel>
    decreases list,
{
    Seq::new(
        list.len(),
        |i: int|
            if 0 <= i < list.len() {
                retyped(list[i], analysis)
            } else {
                arbitrary()
            },
    )
}

pub open spec fn retyped_body(
    list: Seq<(usize, InstModel)>,
    analysis: AnalysisModel,
) -> Seq<(usize, InstModel)>
    decreases list,
{
    Seq::new(
        list.len(),
        |i: int|
            if 0 <= i < list.len() {
                (list[i].0, retyped(list[i].1, analysis))
            } else {
                arbitrary()
            },
    )
}

fn retype(instr: &IRInst, analysis: &Analysis) -> (res: IRInst)
    ensures
        res.model() == retyped(instr.model(), analysis.model()),
    decreases instr,
{
    match instr {
        IRInst::DeclareVariable { variable, ty } => IRInst::DeclareVariable {
            variable: *variable,
            ty: analysis.infer(Slot::Variable(*variable), ty),
        },
        IRInst::DeclareAndAssignVariable {
            variable,
            ty,
            value,
        } => IRInst::DeclareAndAssignVariable {
            variable: *variable,
            ty: analysis.infer(Slot::Variable(*variable), ty),
            value: value.clone(),
        },
        IRInst::If { condition, then_branch, else_branch } => IRInst::If {
            condition: condition.clone(),
            then_branch: retype_list(then_branch, analysis),
            else_branch: retype_list(else_branch, analysis),
        },
        IRInst::While { label, entry_offset, condition, body } => IRInst::While {
            label: *label,
            entry_offset: *entry_offset,
            condition: condition.clone(),
            body: retype_body(body, analysis),
        },
        _ => instr.clone(),
    }
}

fn retype_list(list: &Vec<IRInst>, analysis: &Analysis) -> (res: Vec<IRInst>)
    ensures
        models(res@) == retyped_list(models(list@), analysis.model()),
    decreases list,
{
    let ghost all = models(list@);
    let mut res: Vec<IRInst> = Vec::new();
    let mut i: usize = 0;
    while i < list.len()
        invariant
            i <= list@.len(),
            all == models(list@),
            res@.len() == i,
            forall|k: int| 0 <= k < i ==> (#[trigger] res@[k]).model() == retyped(
                all[k],
                analysis.model(),
            ),
        decreases list@.len() - i,
    {
        assert(decreases_to!(list => list@[i as int]));
        res.push(retype(&list[i], analysis));
        i = i + 1;
    }
    assert(models(res@) =~= retyped_list(all, analysis.model()));
    res
}

fn retype_body(list: &Vec<(usize, IRInst)>, analysis: &Analysis) -> (res: Vec<(usize, IRInst)>)
    ensures
        body_models(res@) == retyped_body(body_models(list@), analysis.model()),
    decreases list,
{
    let ghost all = body_models(list@);
    let mut res: Vec<(usize, IRInst)> = Vec::new();
    let mut i: usize = 0;
    while i < list.len()
        invariant
            i <= list@.len(),
            all == body_models(list@),
            res@.len() == i,
            forall|k: int| 0 <= k < i ==> (#[trigger] res@[k]).0 == all[k].0 && res@[k].1.model() == retyped(
                all[k].1,
                analysis.model(),
            ),
        decreases list@.len() - i,
    {
        assert(decreases_to!(list => list@[i as int]));
        res.push((list[i].0, retype(&list[i].1, analysis)));
        i = i + 1;
    }
    assert(body_models(res@) =~= retyped_body(all, analysis.model()));
    res
}


pub open spec fn parameter_typed(
    parameter: Parameter,
    owner: SyntheticFunctionId,
    analysis: AnalysisModel,
) -> Parameter {
    match parameter {
        Parameter::Argument { ordinal, ty } => Parameter::Argument {
            ordinal,
            ty: analysis.typed(Slot::Argument(owner, ordinal), ty),
        },
        Parameter::Slot { variable, ty } => Parameter::Slot {
            variable,
            ty: analysis.typed(Slot::Variable(variable), ty),
        },
    }
}

/// The types with those of the first `count` parameters of a function.
pub open spec fn parameter_types(
    parameters: Seq<Parameter>,
    owner: SyntheticFunctionId,
    types: Map<Slot, VariableType>,
    count: int,
) -> Map<Slot, VariableType>
    decreases count,
{
    if count <= 0 {
        types
    } else {
        let before = parameter_types(parameters, owner, types, count - 1);
        match parameters[count - 1] {
            Parameter::Argument { ordinal, ty } => before.insert(
                Slot::Argument(owner, ordinal),
                ty,
            ),
            Parameter::Slot { variable, ty } => before.insert(Slot::Variable(variable), ty),
        }
    }
}

pub open spec fn id_of(index: int) -> SyntheticFunctionId {
    SyntheticFunctionId { id: index as usize }
}

/// The types of the parameters of the first `count` functions.
pub open spec fn all_parameter_types(functions: Seq<FunctionModel>, count: int) -> Map<
    Slot,
    VariableType,
>
    decreases count,
{
    if count <= 0 {
        Map::empty()
    } else {
        parameter_types(
            functions[count - 1].parameters,
            id_of(count - 1),
            all_parameter_types(functions, count - 1),
            functions[count - 1].parameters.len() as int,
        )
    }
}

/// The types with those declared in the first `count` functions.
pub open spec fn all_declared(
    functions: Seq<FunctionModel>,
    types: Map<Slot, VariableType>,
    count: int,
) -> Map<Slot, VariableType>
    decreases count,
{
    if count <= 0 {
        types
    } else {
        declared_with_body(functions[count - 1].body, all_declared(functions, types, count - 1))
    }
}

/// The declared types of all slots. Uses can precede the declaration in
/// structured loop bodies, so all declarations come first.
pub open spec fn types_in(functions: Seq<FunctionModel>) -> Map<Slot, VariableType> {
    all_declared(
        functions,
        all_parameter_types(functions, functions.len() as int),
        functions.len() as int,
    )
}

pub open spec fn all_evidence(
    functions: Seq<FunctionModel>,
    types: Map<Slot, VariableType>,
    count: int,
) -> Map<Slot, Evidence>
    decreases count,
{
    if count <= 0 {
        Map::empty()
    } else {
        gathered_body(
            functions[count - 1].body,
            all_evidence(functions, types, count - 1),
            id_of(count - 1),
            types,
        )
    }
}

pub open spec fn all_copied(
    functions: Seq<FunctionModel>,
    types: Map<Slot, VariableType>,
    count: int,
) -> Seq<(Slot, Slot)>
    decreases count,
{
    if count <= 0 {
        Seq::empty()
    } else {
        copied_with_body(
            functions[count - 1].body,
            all_copied(functions, types, count - 1),
            id_of(count - 1),
            types,
        )
    }
}

pub open spec fn all_called(
    functions: Seq<FunctionModel>,
    types: Map<Slot, VariableType>,
    copies: Seq<(Slot, Slot)>,
    count: int,
) -> Seq<(Slot, Slot)>
    decreases count,
{
    if count <= 0 {
        copies
    } else {
        called_with_body(
            functions[count - 1].body,
            all_called(functions, types, copies, count - 1),
            id_of(count - 1),
            types,
            functions,
        )
    }
}

pub open spec fn all_uses(
    functions: Seq<FunctionModel>,
    types: Map<Slot, VariableType>,
    evidence: Map<Slot, Evidence>,
    count: int,
) -> Map<Slot, PointerUse>
    decreases count,
{
    if count <= 0 {
        Map::empty()
    } else {
        uses_with_body(
            functions[count - 1].body,
            all_uses(functions, types, evidence, count - 1),
            id_of(count - 1),
            types,
            evidence,
            functions,
        )
    }
}

pub open spec fn all_derived(
    functions: Seq<FunctionModel>,
    types: Map<Slot, VariableType>,
    evidence: Map<Slot, Evidence>,
    count: int,
) -> Seq<(Slot, Slot)>
    decreases count,
{
    if count <= 0 {
        Seq::empty()
    } else {
        derived_with_body(
            functions[count - 1].body,
            all_derived(functions, types, evidence, count - 1),
            id_of(count - 1),
            types,
            evidence,
            functions,
        )
    }
}

pub open spec fn all_pointees(
    functions: Seq<FunctionModel>,
    types: Map<Slot, VariableType>,
    evidence: Map<Slot, Evidence>,
    count: int,
) -> Map<Slot, PointeeEvidence>
    decreases count,
{
    if count <= 0 {
        Map::empty()
    } else {
        pointed_with_body(
            functions[count - 1].body,
            all_pointees(functions, types, evidence, count - 1),
            id_of(count - 1),
            types,
            evidence,
            functions,
        )
    }
}

/// What is known of the slots of a program.
pub open spec fn analysis_of(functions: Seq<FunctionModel>) -> AnalysisModel {
    let count = functions.len() as int;
    let types = types_in(functions);
    let copies = all_called(functions, types, all_copied(functions, types, count), count);
    let evidence = spread_evidence(all_evidence(functions, types, count), copies, copies.len() * 8);
    let derived = all_derived(functions, types, evidence, count);
    AnalysisModel {
        evidence,
        uses: settled_uses(all_uses(functions, types, evidence, count), copies, derived),
        pointees: spread_pointees(
            all_pointees(functions, types, evidence, count),
            copies,
            copies.len() * 8,
        ),
    }
}

pub open spec fn function_typed(
    function: FunctionModel,
    owner: SyntheticFunctionId,
    analysis: AnalysisModel,
) -> FunctionModel {
    FunctionModel {
        parameters: function.parameters.map_values(
            |p: Parameter| parameter_typed(p, owner, analysis),
        ),
        body: retyped_body(function.body, analysis),
        ..function
    }
}

/// A program with the types of its slots inferred.
pub open spec fn program_typed(program: ProgramModel) -> ProgramModel {
    let analysis = analysis_of(program.functions);
    ProgramModel {
        functions: Seq::new(
            program.functions.len(),
            |i: int| function_typed(program.functions[i], id_of(i), analysis),
        ),
        ..program
    }
}

fn collect_types(functions: &Vec<SyntheticFunction>) -> (res: Table<Slot, VariableType>)
    ensures
        res@ == types_in(function_models(functions@)),
{
    let ghost all = function_models(functions@);
    let mut types: Table<Slot, VariableType> = Table::new();
    let mut i: usize = 0;
    while i < functions.len()
        invariant
            i <= functions@.len(),
            all == function_models(functions@),
            types@ == all_parameter_types(all, i as int),
        decreases functions@.len() - i,
    {
        assert(all[i as int] == functions@[i as int].model());
        let owner = SyntheticFunctionId { id: i };
        let ghost start = types@;
        let parameters = &functions[i].parameters;
        let mut j: usize = 0;
        while j < parameters.len()
            invariant
                j <= parameters@.len(),
                types@ == parameter_types(parameters@, owner, start, j as int),
            decreases parameters@.len() - j,
        {
            match &parameters[j] {
                Parameter::Argument { ordinal, ty } => {
                    types.insert(Slot::Argument(owner, *ordinal), ty.clone());
                },
                Parameter::Slot { variable, ty } => {
                    types.insert(Slot::Variable(*variable), ty.clone());
                },
            }
            j = j + 1;
        }
        i = i + 1;
    }
    let ghost start = types@;
    let mut i: usize = 0;
    while i < functions.len()
        invariant
            i <= functions@.len(),
            all == function_models(functions@),
            types@ == all_declared(all, start, i as int),
        decreases functions@.len() - i,
    {
        assert(all[i as int] == functions@[i as int].model());
        declarations_body(&functions[i].body, &mut types);
        i = i + 1;
    }
    types
}

fn collect_copies(
    functions: &Vec<SyntheticFunction>,
    types: &Table<Slot, VariableType>,
) -> (res: Vec<
    (Slot, Slot),
>)
    ensures
        res@ == all_called(
            function_models(functions@),
            types@,
            all_copied(function_models(functions@), types@, functions@.len() as int),
            functions@.len() as int,
        ),
{
    let ghost all = function_models(functions@);
    let mut copies: Vec<(Slot, Slot)> = Vec::new();
    assert(copies@ =~= Seq::<(Slot, Slot)>::empty());
    let mut i: usize = 0;
    while i < functions.len()
        invariant
            i <= functions@.len(),
            all == function_models(functions@),
            copies@ == all_copied(all, types@, i as int),
        decreases functions@.len() - i,
    {
        assert(all[i as int] == functions@[i as int].model());
        copy_assignments_body(
            &functions[i].body,
            &mut copies,
            SyntheticFunctionId { id: i },
            types,
        );
        i = i + 1;
    }
    let ghost start = copies@;
    let mut i: usize = 0;
    while i < functions.len()
        invariant
            i <= functions@.len(),
            all == function_models(functions@),
            copies@ == all_called(all, types@, start, i as int),
        decreases functions@.len() - i,
    {
        assert(all[i as int] == functions@[i as int].model());
        calls_body(
            &functions[i].body,
            &mut copies,
            SyntheticFunctionId { id: i },
            types,
            functions,
        );
        i = i + 1;
    }
    copies
}

fn collect_evidence(
    functions: &Vec<SyntheticFunction>,
    types: &Table<Slot, VariableType>,
) -> (res: Table<
    Slot,
    Evidence,
>)
    ensures
        res@ == all_evidence(function_models(functions@), types@, functions@.len() as int),
{
    let ghost all = function_models(functions@);
    let mut found: Table<Slot, Evidence> = Table::new();
    let mut i: usize = 0;
    while i < functions.len()
        invariant
            i <= functions@.len(),
            all == function_models(functions@),
            found@ == all_evidence(all, types@, i as int),
        decreases functions@.len() - i,
    {
        assert(all[i as int] == functions@[i as int].model());
        instruction_body(
            &functions[i].body,
            &mut found,
            SyntheticFunctionId { id: i },
            types,
        );
        i = i + 1;
    }
    found
}

fn analyze(functions: &Vec<SyntheticFunction>) -> (res: Analysis)
    ensures
        res.model() == analysis_of(function_models(functions@)),
{
    let ghost all = function_models(functions@);
    let types: Table<Slot, VariableType> = collect_types(functions);
    let copies: Vec<(Slot, Slot)> = collect_copies(functions, &types);
    let mut evidence: Table<Slot, Evidence> = collect_evidence(functions, &types);
    propagate(&mut evidence, &copies);
    let mut uses: Table<Slot, PointerUse> = Table::new();
    let mut derived: Vec<(Slot, Slot)> = Vec::new();
    let mut pointees: Table<Slot, PointeeEvidence> = Table::new();
    assert(derived@ =~= Seq::<(Slot, Slot)>::empty());
    let mut i: usize = 0;
    while i < functions.len()
        invariant
            i <= functions@.len(),
            all == function_models(functions@),
            uses@ == all_uses(all, types@, evidence@, i as int),
            derived@ == all_derived(all, types@, evidence@, i as int),
            pointees@ == all_pointees(all, types@, evidence@, i as int),
        decreases functions@.len() - i,
    {
        assert(all[i as int] == functions@[i as int].model());
        let owner = SyntheticFunctionId { id: i };
        let body = &functions[i].body;
        pointer_instruction_body(body, &mut uses, owner, &types, &evidence, functions);
        derive_body(body, &mut derived, owner, &types, &evidence, functions);
        pointee_instruction_body(body, &mut pointees, owner, &types, &evidence, functions);
        i = i + 1;
    }
    propagate_pointer_uses(&mut uses, &copies, &derived);
    propagate_pointees(&mut pointees, &copies);
    Analysis { evidence, uses, pointees }
}

fn type_parameters(
    parameters: &Vec<Parameter>,
    owner: SyntheticFunctionId,
    analysis: &Analysis,
) -> (res: Vec<Parameter>)
    ensures
        res@ == parameters@.map_values(
            |p: Parameter| parameter_typed(p, owner, analysis.model()),
        ),
{
    let mut res: Vec<Parameter> = Vec::new();
    let mut i: usize = 0;
    while i < parameters.len()
        invariant
            i <= parameters@.len(),
            res@.len() == i,
            forall|k: int|
                0 <= k < i ==> (#[trigger] res@[k]) == parameter_typed(
                    parameters@[k],
                    owner,
                    analysis.model(),
                ),
        decreases parameters@.len() - i,
    {
        let made: Parameter = match &parameters[i] {
            Parameter::Argument { ordinal, ty } => Parameter::Argument {
                ordinal: *ordinal,
                ty: analysis.infer(Slot::Argument(owner, *ordinal), ty),
            },
            Parameter::Slot { variable, ty } => Parameter::Slot {
                variable: *variable,
                ty: analysis.infer(Slot::Variable(*variable), ty),
            },
        };
        res.push(made);
        i = i + 1;
    }
    assert(res@ =~= parameters@.map_values(
        |p: Parameter| parameter_typed(p, owner, analysis.model()),
    ));
    res
}

/// Infers the types of the slots of a program.
pub fn run(program: &mut Program)
    ensures
        final(program).model() == program_typed(old(program).model()),
{
    let ghost before = function_models(program.functions@);
    let ghost initial = *program;
    let analysis: Analysis = analyze(&program.functions);
    let total: usize = program.functions.len();
    let mut i: usize = 0;
    while i < total
        invariant
            i <= total,
            total == program.functions@.len(),
            total == before.len(),
            analysis.model() == analysis_of(before),
            *program == (Program { functions: program.functions, ..initial }),
            forall|k: int|
                0 <= k < i ==> (#[trigger] program.functions@[k]).model() == function_typed(
                    before[k],
                    id_of(k),
                    analysis.model(),
                ),
            forall|k: int|
                i <= k < total ==> (#[trigger] program.functions@[k]).model() == before[k],
        decreases total - i,
    {
        let owner = SyntheticFunctionId { id: i };
        let parameters: Vec<Parameter> = type_parameters(
            &program.functions[i].parameters,
            owner,
            &analysis,
        );
        let body: Vec<(usize, IRInst)> = retype_body(&program.functions[i].body, &analysis);
        program.functions[i].parameters = parameters;
        program.functions[i].body = body;
        i = i + 1;
    }
    assert(program.model().functions =~= program_typed(initial.model()).functions);
}

} // verus!
