//! Place each local declaration in the block shared by all uses of its slot.
use super::inline_loop_conditions::{
    assigned_to, assignment, remove_declarations_body, undeclared_body,
};
use super::ir::{
    body_models, clone_body, clone_instructions, function_models, models, FunctionModel, IRExpr,
    IRInst, InstModel, Program, ProgramModel, SyntheticFunction, VariableId, VariableType,
};
use super::walks::{mentions, mentions_all, parameter_slots, reads_variable, reads_variable_all, slots};
use crate::table::KeySet;
use vstd::prelude::*;

verus! {

/// Which block of an instruction a path enters.
#[derive(Clone, Copy, Debug, PartialEq, Eq, Structural)]
pub enum Child {
    Then,
    Else,
    Loop,
}

/// One step of a path to a block.
#[derive(Clone, Copy, Debug, PartialEq, Eq, Structural)]
pub struct Step {
    pub index: usize,
    pub child: Child,
}

/// An instruction that uses a slot: the block that it is in, its index there, and
/// whether it is a write that does not read the slot.
pub struct Use {
    pub scope: Vec<Step>,
    pub index: usize,
    pub starts_with_write: bool,
}

pub struct UseModel {
    pub scope: Seq<Step>,
    pub index: usize,
    pub starts_with_write: bool,
}

impl Use {
    pub open spec fn model(self) -> UseModel {
        UseModel {
            scope: self.scope@,
            index: self.index,
            starts_with_write: self.starts_with_write,
        }
    }
}

pub open spec fn use_models(uses: Seq<Use>) -> Seq<UseModel> {
    uses.map_values(|u: Use| u.model())
}

// ---------------------------------------------------------------------------
// Declarations in the order of their slots

pub open spec fn comes_before(a: VariableId, b: VariableId) -> bool {
    a.owner.id < b.owner.id || (a.owner.id == b.owner.id && a.id < b.id)
}

/// The number of declarations of earlier slots at the start of a list.
pub open spec fn rank(found: Seq<(VariableId, VariableType)>, variable: VariableId) -> int
    decreases found.len(),
{
    if found.len() == 0 {
        0
    } else if comes_before(found[0].0, variable) {
        1 + rank(found.subrange(1, found.len() as int), variable)
    } else {
        0
    }
}

/// The list with a declaration at its place, unless the slot has one.
pub open spec fn with_declaration(
    found: Seq<(VariableId, VariableType)>,
    variable: VariableId,
    ty: VariableType,
) -> Seq<(VariableId, VariableType)> {
    let at = rank(found, variable);
    if at < found.len() && found[at].0 == variable {
        found
    } else {
        found.insert(at, (variable, ty))
    }
}

proof fn lemma_rank(found: Seq<(VariableId, VariableType)>, variable: VariableId, at: int)
    requires
        0 <= at <= found.len(),
        forall|k: int| 0 <= k < at ==> comes_before((#[trigger] found[k]).0, variable),
        at < found.len() ==> !comes_before(found[at].0, variable),
    ensures
        rank(found, variable) == at,
    decreases found.len(),
{
    if found.len() > 0 && at > 0 {
        assert(comes_before(found[0].0, variable));
        let rest = found.subrange(1, found.len() as int);
        assert forall|k: int| 0 <= k < at - 1 implies comes_before(
            (#[trigger] rest[k]).0,
            variable,
        ) by {
            assert(rest[k] == found[k + 1]);
        }
        lemma_rank(rest, variable, at - 1);
    }
}

fn add_declaration(
    found: &mut Vec<(VariableId, VariableType)>,
    variable: VariableId,
    ty: VariableType,
)
    ensures
        final(found)@ == with_declaration(old(found)@, variable, ty),
{
    let mut at: usize = 0;
    let mut going: bool = true;
    while going && at < found.len()
        invariant
            at <= found@.len(),
            found@ == old(found)@,
            forall|k: int| 0 <= k < at ==> comes_before((#[trigger] found@[k]).0, variable),
            !going ==> at < found@.len() && !comes_before(found@[at as int].0, variable),
        decreases found@.len() - at, going as int,
    {
        let other: VariableId = found[at].0;
        if other.owner.id < variable.owner.id || (other.owner.id == variable.owner.id && other.id
            < variable.id) {
            at = at + 1;
        } else {
            going = false;
        }
    }
    proof {
        lemma_rank(found@, variable, at as int);
    }
    if at < found.len() && found[at].0 == variable {
        return;
    }
    found.insert(at, (variable, ty));
}

/// The declarations with those in an instruction, in the order of their slots.
/// The first declaration of a slot counts.
pub open spec fn declared_with(
    instr: InstModel,
    found: Seq<(VariableId, VariableType)>,
) -> Seq<(VariableId, VariableType)>
    decreases instr,
{
    match instr {
        InstModel::DeclareVariable { variable, ty } => with_declaration(found, variable, ty),
        InstModel::If { then_branch, else_branch, .. } => declared_with_list(
            else_branch,
            declared_with_list(then_branch, found),
        ),
        InstModel::While { body, .. } => declared_with_body(body, found),
        _ => found,
    }
}

pub open spec fn declared_with_list(
    list: Seq<InstModel>,
    found: Seq<(VariableId, VariableType)>,
) -> Seq<(VariableId, VariableType)>
    decreases list,
{
    if list.len() == 0 {
        found
    } else {
        declared_with(list[list.len() - 1], declared_with_list(list.drop_last(), found))
    }
}

pub open spec fn declared_with_body(
    list: Seq<(usize, InstModel)>,
    found: Seq<(VariableId, VariableType)>,
) -> Seq<(VariableId, VariableType)>
    decreases list,
{
    if list.len() == 0 {
        found
    } else {
        declared_with(list[list.len() - 1].1, declared_with_body(list.drop_last(), found))
    }
}

fn collect_declarations(instr: &IRInst, found: &mut Vec<(VariableId, VariableType)>)
    ensures
        final(found)@ == declared_with(instr.model(), old(found)@),
    decreases instr,
{
    match instr {
        IRInst::DeclareVariable { variable, ty } => {
            add_declaration(found, *variable, *ty);
        },
        IRInst::If { then_branch, else_branch, .. } => {
            collect_declarations_list(then_branch, found);
            collect_declarations_list(else_branch, found);
        },
        IRInst::While { body, .. } => {
            collect_declarations_body(body, found);
        },
        _ => {},
    }
}

fn collect_declarations_list(list: &Vec<IRInst>, found: &mut Vec<(VariableId, VariableType)>)
    ensures
        final(found)@ == declared_with_list(models(list@), old(found)@),
    decreases list,
{
    let ghost all = models(list@);
    let ghost start = found@;
    assert(all.subrange(0, 0) =~= Seq::empty());
    let mut i: usize = 0;
    while i < list.len()
        invariant
            i <= list@.len(),
            all == models(list@),
            found@ == declared_with_list(all.subrange(0, i as int), start),
        decreases list@.len() - i,
    {
        let ghost prefix = all.subrange(0, i + 1);
        assert(prefix.drop_last() =~= all.subrange(0, i as int));
        assert(decreases_to!(list => list@[i as int]));
        collect_declarations(&list[i], found);
        i = i + 1;
    }
    assert(all.subrange(0, i as int) =~= all);
}

fn collect_declarations_body(
    list: &Vec<(usize, IRInst)>,
    found: &mut Vec<(VariableId, VariableType)>,
)
    ensures
        final(found)@ == declared_with_body(body_models(list@), old(found)@),
    decreases list,
{
    let ghost all = body_models(list@);
    let ghost start = found@;
    assert(all.subrange(0, 0) =~= Seq::empty());
    let mut i: usize = 0;
    while i < list.len()
        invariant
            i <= list@.len(),
            all == body_models(list@),
            found@ == declared_with_body(all.subrange(0, i as int), start),
        decreases list@.len() - i,
    {
        let ghost prefix = all.subrange(0, i + 1);
        assert(prefix.drop_last() =~= all.subrange(0, i as int));
        assert(decreases_to!(list => list@[i as int]));
        collect_declarations(&list[i].1, found);
        i = i + 1;
    }
    assert(all.subrange(0, i as int) =~= all);
}


// ---------------------------------------------------------------------------
// Uses

/// Whether an instruction uses the slot, apart from the instructions in it.
pub open spec fn is_use(instr: InstModel, slot: VariableId) -> bool {
    match instr {
        InstModel::Assign { dest, src } => mentions(dest, slot) || mentions(src, slot),
        InstModel::AssignVariable { variable, value } => variable == slot || mentions(value, slot),
        InstModel::DeclareAndAssignVariable { variable, value, .. } => variable == slot
            || mentions(value, slot),
        InstModel::LoadVariable { variable, address } => variable == slot || mentions(
            address,
            slot,
        ),
        InstModel::StoreVariable { address, variable } => variable == slot || mentions(
            address,
            slot,
        ),
        InstModel::Return(Some(value)) => mentions(value, slot),
        InstModel::Jump(value) => mentions(value, slot),
        InstModel::If { condition, .. } => mentions(condition, slot),
        InstModel::While { condition, .. } => mentions(condition.check(), slot),
        InstModel::CallSynthetic { arguments, .. } => mentions_all(arguments, slot),
        _ => false,
    }
}

fn direct_use(instr: &IRInst, slot: VariableId) -> (res: bool)
    ensures
        res == is_use(instr.model(), slot),
{
    match instr {
        IRInst::Assign { dest, src } => reads_variable(dest, slot) || reads_variable(src, slot),
        IRInst::AssignVariable { variable, value } => *variable == slot || reads_variable(
            value,
            slot,
        ),
        IRInst::DeclareAndAssignVariable { variable, value, .. } => *variable == slot
            || reads_variable(value, slot),
        IRInst::LoadVariable { variable, address } => *variable == slot || reads_variable(
            address,
            slot,
        ),
        IRInst::StoreVariable { address, variable } => *variable == slot || reads_variable(
            address,
            slot,
        ),
        IRInst::Return(Some(value)) => reads_variable(value, slot),
        IRInst::Jump(value) => reads_variable(value, slot),
        IRInst::If { condition, .. } => reads_variable(condition, slot),
        IRInst::While { condition, .. } => reads_variable(condition.expression(), slot),
        IRInst::CallSynthetic { arguments, .. } => reads_variable_all(arguments, slot),
        _ => false,
    }
}

/// The value that an instruction gives the slot without reading it.
pub open spec fn initial_of(instr: InstModel, slot: VariableId) -> Option<IRExpr> {
    let value = match instr {
        InstModel::LoadVariable { variable, address } => if variable == slot {
            Some(IRExpr::Deref(Box::new(address)))
        } else {
            None
        },
        _ => assigned_to(instr, slot),
    };
    match value {
        Some(value) => if mentions(value, slot) {
            None
        } else {
            Some(value)
        },
        None => None,
    }
}

fn initial_value(instr: &IRInst, slot: VariableId) -> (res: Option<IRExpr>)
    ensures
        res == initial_of(instr.model(), slot),
{
    let value: IRExpr = match instr {
        IRInst::LoadVariable { variable, address } => if *variable == slot {
            IRExpr::Deref(Box::new(address.clone()))
        } else {
            return None
        },
        _ => match assignment(instr, slot) {
            Some(value) => value.clone(),
            None => return None,
        },
    };
    if reads_variable(&value, slot) {
        None
    } else {
        Some(value)
    }
}

pub open spec fn own_use(instr: InstModel, index: usize, scope: Seq<Step>, slot: VariableId) -> Seq<
    UseModel,
> {
    if is_use(instr, slot) {
        seq![UseModel { scope, index, starts_with_write: initial_of(instr, slot) is Some }]
    } else {
        Seq::empty()
    }
}

/// The uses of the slot in an instruction.
pub open spec fn uses_of(instr: InstModel, index: usize, scope: Seq<Step>, slot: VariableId) -> Seq<
    UseModel,
>
    decreases instr, 0int,
{
    let own = own_use(instr, index, scope, slot);
    match instr {
        InstModel::If { then_branch, else_branch, .. } => own + uses_in(
            then_branch,
            scope.push(Step { index, child: Child::Then }),
            slot,
            then_branch.len() as int,
        ) + uses_in(
            else_branch,
            scope.push(Step { index, child: Child::Else }),
            slot,
            else_branch.len() as int,
        ),
        InstModel::While { body, .. } => own + uses_in_body(
            body,
            scope.push(Step { index, child: Child::Loop }),
            slot,
            body.len() as int,
        ),
        _ => own,
    }
}

/// The uses of the slot in the first `count` instructions of a block.
pub open spec fn uses_in(
    list: Seq<InstModel>,
    scope: Seq<Step>,
    slot: VariableId,
    count: int,
) -> Seq<
    UseModel,
>
    decreases list, count,
{
    if count <= 0 || count > list.len() {
        Seq::empty()
    } else {
        uses_in(list, scope, slot, count - 1) + uses_of(
            list[count - 1],
            (count - 1) as usize,
            scope,
            slot,
        )
    }
}

pub open spec fn uses_in_body(
    list: Seq<(usize, InstModel)>,
    scope: Seq<Step>,
    slot: VariableId,
    count: int,
) -> Seq<UseModel>
    decreases list, count,
{
    if count <= 0 || count > list.len() {
        Seq::empty()
    } else {
        uses_in_body(list, scope, slot, count - 1) + uses_of(
            list[count - 1].1,
            (count - 1) as usize,
            scope,
            slot,
        )
    }
}

fn copy_steps(steps: &Vec<Step>, count: usize) -> (res: Vec<Step>)
    requires
        count <= steps@.len(),
    ensures
        res@ == steps@.subrange(0, count as int),
{
    let mut res: Vec<Step> = Vec::new();
    let mut i: usize = 0;
    while i < count
        invariant
            i <= count <= steps@.len(),
            res@ == steps@.subrange(0, i as int),
        decreases count - i,
    {
        res.push(steps[i]);
        i = i + 1;
        assert(res@ =~= steps@.subrange(0, i as int));
    }
    res
}

fn enter(scope: &Vec<Step>, index: usize, child: Child) -> (res: Vec<Step>)
    ensures
        res@ == scope@.push(Step { index, child }),
{
    let mut res: Vec<Step> = copy_steps(scope, scope.len());
    assert(res@ =~= scope@);
    res.push(Step { index, child });
    res
}

fn collect_instruction(
    instr: &IRInst,
    index: usize,
    scope: &Vec<Step>,
    slot: VariableId,
    uses: &mut Vec<Use>,
)
    ensures
        use_models(final(uses)@) == use_models(old(uses)@) + uses_of(
            instr.model(),
            index,
            scope@,
            slot,
        ),
    decreases instr, 0int,
{
    let ghost before = use_models(uses@);
    if direct_use(instr, slot) {
        let site = Use {
            scope: copy_steps(scope, scope.len()),
            index,
            starts_with_write: initial_value(instr, slot).is_some(),
        };
        assert(site.scope@ =~= scope@);
        let ghost model = site.model();
        uses.push(site);
        assert(use_models(uses@) =~= before + seq![model]);
    }
    assert(use_models(uses@) =~= before + own_use(instr.model(), index, scope@, slot));
    let ghost own = use_models(uses@);
    match instr {
        IRInst::If { then_branch, else_branch, .. } => {
            let first: Vec<Step> = enter(scope, index, Child::Then);
            collect_branch(then_branch, &first, slot, uses);
            let second: Vec<Step> = enter(scope, index, Child::Else);
            collect_branch(else_branch, &second, slot, uses);
            assert(use_models(uses@) =~= before + uses_of(instr.model(), index, scope@, slot));
        },
        IRInst::While { body, .. } => {
            let inner: Vec<Step> = enter(scope, index, Child::Loop);
            collect_body(body, &inner, slot, uses);
            assert(use_models(uses@) =~= before + uses_of(instr.model(), index, scope@, slot));
        },
        _ => {},
    }
}

fn collect_branch(list: &Vec<IRInst>, scope: &Vec<Step>, slot: VariableId, uses: &mut Vec<Use>)
    ensures
        use_models(final(uses)@) == use_models(old(uses)@) + uses_in(
            models(list@),
            scope@,
            slot,
            list@.len() as int,
        ),
    decreases list, list@.len() as int,
{
    let ghost all = models(list@);
    let ghost before = use_models(uses@);
    assert(before =~= before + Seq::<UseModel>::empty());
    let mut i: usize = 0;
    while i < list.len()
        invariant
            i <= list@.len(),
            all == models(list@),
            use_models(uses@) == before + uses_in(all, scope@, slot, i as int),
        decreases list@.len() - i,
    {
        assert(all[i as int] == list@[i as int].model());
        assert(decreases_to!(list => list@[i as int]));
        collect_instruction(&list[i], i, scope, slot, uses);
        assert(use_models(uses@) =~= before + uses_in(all, scope@, slot, i + 1));
        i = i + 1;
    }
}

fn collect_body(
    list: &Vec<(usize, IRInst)>,
    scope: &Vec<Step>,
    slot: VariableId,
    uses: &mut Vec<Use>,
)
    ensures
        use_models(final(uses)@) == use_models(old(uses)@) + uses_in_body(
            body_models(list@),
            scope@,
            slot,
            list@.len() as int,
        ),
    decreases list, list@.len() as int,
{
    let ghost all = body_models(list@);
    let ghost before = use_models(uses@);
    assert(before =~= before + Seq::<UseModel>::empty());
    let mut i: usize = 0;
    while i < list.len()
        invariant
            i <= list@.len(),
            all == body_models(list@),
            use_models(uses@) == before + uses_in_body(all, scope@, slot, i as int),
        decreases list@.len() - i,
    {
        assert(all[i as int].1 == list@[i as int].1.model());
        assert(decreases_to!(list => list@[i as int]));
        collect_instruction(&list[i].1, i, scope, slot, uses);
        assert(use_models(uses@) =~= before + uses_in_body(all, scope@, slot, i + 1));
        i = i + 1;
    }
}

/// The uses of the slot in a body.
pub open spec fn all_uses(body: Seq<(usize, InstModel)>, slot: VariableId) -> Seq<UseModel> {
    uses_in_body(body, Seq::empty(), slot, body.len() as int)
}

fn collect_uses(body: &Vec<(usize, IRInst)>, slot: VariableId) -> (res: Vec<Use>)
    ensures
        use_models(res@) == all_uses(body_models(body@), slot),
{
    let mut uses: Vec<Use> = Vec::new();
    let scope: Vec<Step> = Vec::new();
    assert(scope@ =~= Seq::<Step>::empty());
    assert(use_models(uses@) =~= Seq::<UseModel>::empty());
    collect_body(body, &scope, slot, &mut uses);
    assert(use_models(uses@) =~= all_uses(body_models(body@), slot));
    uses
}

// ---------------------------------------------------------------------------
// The block shared by all uses

/// How many steps two paths have in common, from an index on.
pub open spec fn common(a: Seq<Step>, b: Seq<Step>, from: int) -> int
    decreases a.len() - from,
{
    if from < 0 || from >= a.len() || from >= b.len() || a[from] != b[from] {
        from
    } else {
        common(a, b, from + 1)
    }
}

/// The path that the first `count` uses share.
pub open spec fn shared(uses: Seq<UseModel>, count: int) -> Seq<Step>
    decreases count,
{
    if count <= 0 {
        Seq::empty()
    } else if count == 1 {
        uses[0].scope
    } else {
        let before = shared(uses, count - 1);
        before.subrange(0, common(before, uses[count - 1].scope, 0))
    }
}

fn count_common(a: &Vec<Step>, b: &Vec<Step>) -> (res: usize)
    ensures
        res == common(a@, b@, 0),
        res <= a@.len(),
{
    let mut i: usize = 0;
    while i < a.len() && i < b.len() && a[i] == b[i]
        invariant
            i <= a@.len(),
            i <= b@.len(),
            common(a@, b@, 0) == common(a@, b@, i as int),
        decreases a@.len() - i,
    {
        i = i + 1;
    }
    i
}

fn common_scope(uses: &Vec<Use>) -> (res: Vec<Step>)
    ensures
        res@ == shared(use_models(uses@), uses@.len() as int),
{
    let ghost all = use_models(uses@);
    if uses.len() == 0 {
        let res: Vec<Step> = Vec::new();
        assert(res@ =~= Seq::<Step>::empty());
        return res;
    }
    let mut res: Vec<Step> = copy_steps(&uses[0].scope, uses[0].scope.len());
    assert(res@ =~= all[0].scope);
    let mut i: usize = 1;
    while i < uses.len()
        invariant
            1 <= i <= uses@.len(),
            all == use_models(uses@),
            res@ == shared(all, i as int),
        decreases uses@.len() - i,
    {
        assert(all[i as int] == uses@[i as int].model());
        let count: usize = count_common(&res, &uses[i].scope);
        res = copy_steps(&res, count);
        i = i + 1;
    }
    res
}

/// Where a use stands in the block at a path of so many steps.
pub open spec fn position(site: UseModel, depth: int) -> usize {
    if depth < site.scope.len() {
        site.scope[depth].index
    } else {
        site.index
    }
}

/// The first position of the first `count` uses in a block.
pub open spec fn first_position(uses: Seq<UseModel>, depth: int, count: int) -> usize
    decreases count,
{
    if count <= 1 {
        position(uses[0], depth)
    } else {
        let before = first_position(uses, depth, count - 1);
        let last = position(uses[count - 1], depth);
        if last < before {
            last
        } else {
            before
        }
    }
}

fn first_use(uses: &Vec<Use>, depth: usize) -> (res: usize)
    requires
        uses@.len() > 0,
    ensures
        res == first_position(use_models(uses@), depth as int, uses@.len() as int),
{
    let ghost all = use_models(uses@);
    let mut res: usize = 0;
    let mut i: usize = 0;
    while i < uses.len()
        invariant
            i <= uses@.len(),
            all == use_models(uses@),
            i > 0 ==> res == first_position(all, depth as int, i as int),
        decreases uses@.len() - i,
    {
        assert(all[i as int] == uses@[i as int].model());
        let at: usize = if depth < uses[i].scope.len() {
            uses[i].scope[depth].index
        } else {
            uses[i].index
        };
        if i == 0 || at < res {
            res = at;
        }
        i = i + 1;
    }
    res
}

/// Whether the first use in the shared block is a write in that block itself.
pub open spec fn opens_with_write(uses: Seq<UseModel>, scope: Seq<Step>, first: usize) -> bool {
    exists|k: int|
        0 <= k < uses.len() && (#[trigger] uses[k]).scope == scope && uses[k].index == first
            && uses[k].starts_with_write
}

fn same_steps(a: &Vec<Step>, b: &Vec<Step>) -> (res: bool)
    ensures
        res == (a@ == b@),
{
    if a.len() != b.len() {
        return false;
    }
    let mut i: usize = 0;
    while i < a.len()
        invariant
            i <= a@.len(),
            a@.len() == b@.len(),
            forall|k: int| 0 <= k < i ==> a@[k] == b@[k],
        decreases a@.len() - i,
    {
        if a[i] != b[i] {
            return false;
        }
        i = i + 1;
    }
    assert(a@ =~= b@);
    true
}

fn begins_with_write(uses: &Vec<Use>, scope: &Vec<Step>, first: usize) -> (res: bool)
    ensures
        res == opens_with_write(use_models(uses@), scope@, first),
{
    let ghost all = use_models(uses@);
    let mut i: usize = 0;
    while i < uses.len()
        invariant
            i <= uses@.len(),
            all == use_models(uses@),
            forall|k: int|
                0 <= k < i ==> !((#[trigger] all[k]).scope == scope@ && all[k].index == first
                    && all[k].starts_with_write),
        decreases uses@.len() - i,
    {
        assert(all[i as int] == uses@[i as int].model());
        if uses[i].starts_with_write && uses[i].index == first && same_steps(
            &uses[i].scope,
            scope,
        ) {
            return true;
        }
        i = i + 1;
    }
    false
}

/// The path to the block that declares the slot first.
pub open spec fn declared_at(
    instr: InstModel,
    index: usize,
    scope: Seq<Step>,
    slot: VariableId,
) -> Option<
    Seq<Step>,
>
    decreases instr, 0int,
{
    match instr {
        InstModel::DeclareVariable { variable, .. } => if variable == slot {
            Some(scope)
        } else {
            None
        },
        InstModel::If { then_branch, else_branch, .. } => match declared_in(
            then_branch,
            scope.push(Step { index, child: Child::Then }),
            slot,
            then_branch.len() as int,
        ) {
            Some(found) => Some(found),
            None => declared_in(
                else_branch,
                scope.push(Step { index, child: Child::Else }),
                slot,
                else_branch.len() as int,
            ),
        },
        InstModel::While { body, .. } => declared_in_body(
            body,
            scope.push(Step { index, child: Child::Loop }),
            slot,
            body.len() as int,
        ),
        _ => None,
    }
}

pub open spec fn declared_in(
    list: Seq<InstModel>,
    scope: Seq<Step>,
    slot: VariableId,
    count: int,
) -> Option<Seq<Step>>
    decreases list, count,
{
    if count <= 0 || count > list.len() {
        None
    } else {
        match declared_in(list, scope, slot, count - 1) {
            Some(found) => Some(found),
            None => declared_at(list[count - 1], (count - 1) as usize, scope, slot),
        }
    }
}

pub open spec fn declared_in_body(
    list: Seq<(usize, InstModel)>,
    scope: Seq<Step>,
    slot: VariableId,
    count: int,
) -> Option<Seq<Step>>
    decreases list, count,
{
    if count <= 0 || count > list.len() {
        None
    } else {
        match declared_in_body(list, scope, slot, count - 1) {
            Some(found) => Some(found),
            None => declared_at(list[count - 1].1, (count - 1) as usize, scope, slot),
        }
    }
}

pub open spec fn steps_of(found: Option<Vec<Step>>) -> Option<Seq<Step>> {
    match found {
        Some(steps) => Some(steps@),
        None => None,
    }
}

fn find_declaration(instr: &IRInst, index: usize, scope: &Vec<Step>, slot: VariableId) -> (res:
    Option<Vec<Step>>)
    ensures
        steps_of(res) == declared_at(instr.model(), index, scope@, slot),
    decreases instr, 0int,
{
    match instr {
        IRInst::DeclareVariable { variable, .. } => {
            if *variable == slot {
                let res: Vec<Step> = copy_steps(scope, scope.len());
                assert(res@ =~= scope@);
                Some(res)
            } else {
                None
            }
        },
        IRInst::If { then_branch, else_branch, .. } => {
            let first: Vec<Step> = enter(scope, index, Child::Then);
            let second: Vec<Step> = enter(scope, index, Child::Else);
            match find_in(then_branch, &first, slot) {
                Some(found) => Some(found),
                None => find_in(else_branch, &second, slot),
            }
        },
        IRInst::While { body, .. } => {
            let inner: Vec<Step> = enter(scope, index, Child::Loop);
            find_in_body(body, &inner, slot)
        },
        _ => None,
    }
}

fn find_in(list: &Vec<IRInst>, scope: &Vec<Step>, slot: VariableId) -> (res: Option<Vec<Step>>)
    ensures
        steps_of(res) == declared_in(models(list@), scope@, slot, list@.len() as int),
    decreases list, list@.len() as int,
{
    let ghost all = models(list@);
    let mut res: Option<Vec<Step>> = None;
    let mut i: usize = 0;
    while i < list.len()
        invariant
            i <= list@.len(),
            all == models(list@),
            steps_of(res) == declared_in(all, scope@, slot, i as int),
        decreases list@.len() - i,
    {
        assert(all[i as int] == list@[i as int].model());
        assert(decreases_to!(list => list@[i as int]));
        if res.is_none() {
            res = find_declaration(&list[i], i, scope, slot);
        }
        i = i + 1;
    }
    res
}

fn find_in_body(list: &Vec<(usize, IRInst)>, scope: &Vec<Step>, slot: VariableId) -> (res: Option<
    Vec<Step>,
>)
    ensures
        steps_of(res) == declared_in_body(body_models(list@), scope@, slot, list@.len() as int),
    decreases list, list@.len() as int,
{
    let ghost all = body_models(list@);
    let mut res: Option<Vec<Step>> = None;
    let mut i: usize = 0;
    while i < list.len()
        invariant
            i <= list@.len(),
            all == body_models(list@),
            steps_of(res) == declared_in_body(all, scope@, slot, i as int),
        decreases list@.len() - i,
    {
        assert(all[i as int].1 == list@[i as int].1.model());
        assert(decreases_to!(list => list@[i as int]));
        if res.is_none() {
            res = find_declaration(&list[i].1, i, scope, slot);
        }
        i = i + 1;
    }
    res
}

/// The first step, from an index on, into a loop that the declaration was outside
/// of. A declaration inside a newly entered loop creates a fresh binding on each
/// iteration, so loop-carried values stay outside.
pub open spec fn loop_limit(scope: Seq<Step>, original: Seq<Step>, from: int) -> int
    decreases scope.len() - from,
{
    if from < 0 || from >= scope.len() {
        scope.len() as int
    } else if scope[from].child == Child::Loop && (from >= original.len() || original[from]
        != scope[from]) {
        from
    } else {
        loop_limit(scope, original, from + 1)
    }
}

fn find_limit(scope: &Vec<Step>, original: &Vec<Step>) -> (res: usize)
    ensures
        res == loop_limit(scope@, original@, 0),
        res <= scope@.len(),
{
    let mut i: usize = 0;
    while i < scope.len()
        invariant
            i <= scope@.len(),
            loop_limit(scope@, original@, 0) == loop_limit(scope@, original@, i as int),
        decreases scope@.len() - i,
    {
        if scope[i].child == Child::Loop && (i >= original.len() || original[i] != scope[i]) {
            return i;
        }
        i = i + 1;
    }
    i
}

// ---------------------------------------------------------------------------
// Placing

/// An instruction that declares the slot with its first value, where it gives one.
pub open spec fn combined(instr: InstModel, variable: VariableId, ty: VariableType) -> Option<
    InstModel,
> {
    match initial_of(instr, variable) {
        Some(value) => Some(InstModel::DeclareAndAssignVariable { variable, ty, value }),
        None => None,
    }
}

fn combine(instr: &IRInst, variable: VariableId, ty: VariableType) -> (res: Option<IRInst>)
    ensures
        match res {
            Some(made) => combined(instr.model(), variable, ty) == Some(made.model()),
            None => combined(instr.model(), variable, ty) is None,
        },
{
    match initial_value(instr, variable) {
        Some(value) => Some(IRInst::DeclareAndAssignVariable { variable, ty, value }),
        None => None,
    }
}

/// An instruction with the declaration in the block that a path leads to, from a
/// step of the path on.
pub open spec fn placed(
    instr: InstModel,
    path: Seq<Step>,
    depth: int,
    index: usize,
    variable: VariableId,
    ty: VariableType,
) -> InstModel
    decreases instr,
{
    match (instr, path[depth].child) {
        (InstModel::If { condition, then_branch, else_branch }, Child::Then) => InstModel::If {
            condition,
            then_branch: placed_list(then_branch, path, depth + 1, index, variable, ty),
            else_branch,
        },
        (InstModel::If { condition, then_branch, else_branch }, Child::Else) => InstModel::If {
            condition,
            then_branch,
            else_branch: placed_list(else_branch, path, depth + 1, index, variable, ty),
        },
        (InstModel::While { label, entry_offset, condition, body }, Child::Loop) => {
            InstModel::While {
                label,
                entry_offset,
                condition,
                body: placed_body(body, path, depth + 1, index, variable, ty),
            }
        },
        _ => instr,
    }
}

pub open spec fn placed_list(
    list: Seq<InstModel>,
    path: Seq<Step>,
    depth: int,
    index: usize,
    variable: VariableId,
    ty: VariableType,
) -> Seq<InstModel>
    decreases list,
{
    if 0 <= depth < path.len() {
        let at = path[depth].index as int;
        if at < list.len() {
            list.update(at, placed(list[at], path, depth, index, variable, ty))
        } else {
            list
        }
    } else if index >= list.len() {
        list
    } else {
        match combined(list[index as int], variable, ty) {
            Some(made) => list.update(index as int, made),
            None => list.insert(index as int, InstModel::DeclareVariable { variable, ty }),
        }
    }
}

pub open spec fn placed_body(
    list: Seq<(usize, InstModel)>,
    path: Seq<Step>,
    depth: int,
    index: usize,
    variable: VariableId,
    ty: VariableType,
) -> Seq<(usize, InstModel)>
    decreases list,
{
    if 0 <= depth < path.len() {
        let at = path[depth].index as int;
        if at < list.len() {
            list.update(
                at,
                (list[at].0, placed(list[at].1, path, depth, index, variable, ty)),
            )
        } else {
            list
        }
    } else if index >= list.len() {
        list
    } else {
        match combined(list[index as int].1, variable, ty) {
            Some(made) => list.update(index as int, (list[index as int].0, made)),
            None => list.insert(
                index as int,
                (list[index as int].0, InstModel::DeclareVariable { variable, ty }),
            ),
        }
    }
}

fn place_in_instruction(
    instr: &IRInst,
    path: &Vec<Step>,
    depth: usize,
    index: usize,
    variable: VariableId,
    ty: VariableType,
) -> (res: IRInst)
    requires
        depth < path@.len(),
    ensures
        res.model() == placed(instr.model(), path@, depth as int, index, variable, ty),
    decreases instr,
{
    let total: usize = path.len();
    match (instr, path[depth].child) {
        (IRInst::If { condition, then_branch, else_branch }, Child::Then) => IRInst::If {
            condition: condition.clone(),
            then_branch: place_in_branch(then_branch, path, depth + 1, index, variable, ty),
            else_branch: clone_instructions(else_branch),
        },
        (IRInst::If { condition, then_branch, else_branch }, Child::Else) => IRInst::If {
            condition: condition.clone(),
            then_branch: clone_instructions(then_branch),
            else_branch: place_in_branch(else_branch, path, depth + 1, index, variable, ty),
        },
        (IRInst::While { label, entry_offset, condition, body }, Child::Loop) => IRInst::While {
            label: *label,
            entry_offset: *entry_offset,
            condition: condition.clone(),
            body: place_in_body(body, path, depth + 1, index, variable, ty),
        },
        _ => instr.clone(),
    }
}

fn place_in_branch(
    list: &Vec<IRInst>,
    path: &Vec<Step>,
    depth: usize,
    index: usize,
    variable: VariableId,
    ty: VariableType,
) -> (res: Vec<IRInst>)
    ensures
        models(res@) == placed_list(models(list@), path@, depth as int, index, variable, ty),
    decreases list,
{
    let ghost all = models(list@);
    let mut res: Vec<IRInst> = clone_instructions(list);
    assert(models(res@).len() == all.len());
    if depth < path.len() {
        let at: usize = path[depth].index;
        if at < list.len() {
            assert(all[at as int] == list@[at as int].model());
            assert(decreases_to!(list => list@[at as int]));
            let made: IRInst = place_in_instruction(&list[at], path, depth, index, variable, ty);
            let ghost model = made.model();
            res.set(at, made);
            assert(models(res@) =~= all.update(at as int, model));
        }
    } else if index < list.len() {
        assert(all[index as int] == list@[index as int].model());
        match combine(&list[index], variable, ty) {
            Some(made) => {
                let ghost model = made.model();
                res.set(index, made);
                assert(models(res@) =~= all.update(index as int, model));
            },
            None => {
                res.insert(index, IRInst::DeclareVariable { variable, ty });
                assert(models(res@) =~= all.insert(
                    index as int,
                    InstModel::DeclareVariable { variable, ty },
                ));
            },
        }
    }
    res
}

fn place_in_body(
    list: &Vec<(usize, IRInst)>,
    path: &Vec<Step>,
    depth: usize,
    index: usize,
    variable: VariableId,
    ty: VariableType,
) -> (res: Vec<(usize, IRInst)>)
    ensures
        body_models(res@) == placed_body(
            body_models(list@),
            path@,
            depth as int,
            index,
            variable,
            ty,
        ),
    decreases list,
{
    let ghost all = body_models(list@);
    let mut res: Vec<(usize, IRInst)> = clone_body(list);
    assert(body_models(res@).len() == all.len());
    if depth < path.len() {
        let at: usize = path[depth].index;
        if at < list.len() {
            assert(all[at as int] == (list@[at as int].0, list@[at as int].1.model()));
            assert(decreases_to!(list => list@[at as int]));
            let made: IRInst = place_in_instruction(
                &list[at].1,
                path,
                depth,
                index,
                variable,
                ty,
            );
            let ghost model = (list@[at as int].0, made.model());
            res.set(at, (list[at].0, made));
            assert(body_models(res@) =~= all.update(at as int, model));
        }
    } else if index < list.len() {
        assert(all[index as int] == (list@[index as int].0, list@[index as int].1.model()));
        let offset: usize = list[index].0;
        match combine(&list[index].1, variable, ty) {
            Some(made) => {
                let ghost model = (offset, made.model());
                res.set(index, (offset, made));
                assert(body_models(res@) =~= all.update(index as int, model));
            },
            None => {
                res.insert(index, (offset, IRInst::DeclareVariable { variable, ty }));
                assert(body_models(res@) =~= all.insert(
                    index as int,
                    (offset, InstModel::DeclareVariable { variable, ty }),
                ));
            },
        }
    }
    res
}

/// How many steps of the shared path the declaration may follow.
pub open spec fn allowed_steps(body: Seq<(usize, InstModel)>, variable: VariableId) -> Option<int> {
    let uses = all_uses(body, variable);
    let scope = shared(uses, uses.len() as int);
    let first = first_position(uses, scope.len() as int, uses.len() as int);
    if opens_with_write(uses, scope, first) {
        None
    } else {
        let original = match declared_in_body(
            body,
            Seq::empty(),
            variable,
            body.len() as int,
        ) {
            Some(original) => original,
            None => Seq::empty(),
        };
        let limit = loop_limit(scope, original, 0);
        if limit < scope.len() {
            Some(limit)
        } else {
            None
        }
    }
}

/// The body with the declaration of a slot in the block shared by all its uses.
pub open spec fn replaced(
    body: Seq<(usize, InstModel)>,
    parameters: Set<VariableId>,
    variable: VariableId,
    ty: VariableType,
) -> Seq<(usize, InstModel)> {
    if parameters.contains(variable) || all_uses(body, variable).len() == 0 {
        body
    } else {
        let bare = undeclared_body(body, variable);
        let uses = all_uses(bare, variable);
        let whole = shared(uses, uses.len() as int);
        let scope = match allowed_steps(body, variable) {
            Some(limit) => if limit <= whole.len() {
                whole.subrange(0, limit)
            } else {
                whole
            },
            None => whole,
        };
        if uses.len() == 0 {
            bare
        } else {
            placed_body(
                bare,
                scope,
                0,
                first_position(uses, scope.len() as int, uses.len() as int),
                variable,
                ty,
            )
        }
    }
}

fn find_allowed(body: &Vec<(usize, IRInst)>, uses: &Vec<Use>, variable: VariableId) -> (res: Option<
    usize,
>)
    requires
        use_models(uses@) == all_uses(body_models(body@), variable),
        uses@.len() > 0,
    ensures
        match res {
            Some(limit) => allowed_steps(body_models(body@), variable) == Some(limit as int),
            None => allowed_steps(body_models(body@), variable) is None,
        },
{
    let ghost all = use_models(uses@);
    let scope: Vec<Step> = common_scope(uses);
    let first: usize = first_use(uses, scope.len());
    if begins_with_write(uses, &scope, first) {
        return None;
    }
    let top: Vec<Step> = Vec::new();
    assert(top@ =~= Seq::<Step>::empty());
    let original: Vec<Step> = match find_in_body(body, &top, variable) {
        Some(original) => original,
        None => Vec::new(),
    };
    let limit: usize = find_limit(&scope, &original);
    if limit < scope.len() {
        Some(limit)
    } else {
        None
    }
}

fn place(
    body: Vec<(usize, IRInst)>,
    parameters: &KeySet<VariableId>,
    variable: VariableId,
    ty: VariableType,
) -> (res: Vec<(usize, IRInst)>)
    ensures
        body_models(res@) == replaced(body_models(body@), parameters@, variable, ty),
{
    let uses: Vec<Use> = collect_uses(&body, variable);
    assert(use_models(uses@).len() == uses@.len());
    if parameters.contains(variable) || uses.len() == 0 {
        return body;
    }
    let allowed: Option<usize> = find_allowed(&body, &uses, variable);
    let bare: Vec<(usize, IRInst)> = remove_declarations_body(&body, variable);
    let uses: Vec<Use> = collect_uses(&bare, variable);
    assert(use_models(uses@).len() == uses@.len());
    let whole: Vec<Step> = common_scope(&uses);
    let scope: Vec<Step> = match allowed {
        Some(limit) => if limit <= whole.len() {
            copy_steps(&whole, limit)
        } else {
            whole
        },
        None => whole,
    };
    if uses.len() == 0 {
        return bare;
    }
    let index: usize = first_use(&uses, scope.len());
    place_in_body(&bare, &scope, 0, index, variable, ty)
}

/// The body with the first `count` of the declarations placed.
pub open spec fn all_placed(
    body: Seq<(usize, InstModel)>,
    parameters: Set<VariableId>,
    found: Seq<(VariableId, VariableType)>,
    count: int,
) -> Seq<(usize, InstModel)>
    decreases count,
{
    if count <= 0 {
        body
    } else {
        replaced(
            all_placed(body, parameters, found, count - 1),
            parameters,
            found[count - 1].0,
            found[count - 1].1,
        )
    }
}

/// The body with every declaration placed, in the order of the slots.
pub open spec fn body_placed(function: FunctionModel) -> Seq<(usize, InstModel)> {
    let found = declared_with_body(function.body, Seq::empty());
    all_placed(
        function.body,
        parameter_slots(function.parameters),
        found,
        found.len() as int,
    )
}

fn place_function(function: &SyntheticFunction) -> (res: Vec<(usize, IRInst)>)
    ensures
        body_models(res@) == body_placed(function.model()),
{
    let mut found: Vec<(VariableId, VariableType)> = Vec::new();
    assert(found@ =~= Seq::<(VariableId, VariableType)>::empty());
    collect_declarations_body(&function.body, &mut found);
    let parameters: KeySet<VariableId> = slots(function);
    let mut body: Vec<(usize, IRInst)> = clone_body(&function.body);
    let mut i: usize = 0;
    while i < found.len()
        invariant
            i <= found@.len(),
            body_models(body@) == all_placed(
                body_models(function.body@),
                parameters@,
                found@,
                i as int,
            ),
        decreases found@.len() - i,
    {
        body = place(body, &parameters, found[i].0, found[i].1);
        i = i + 1;
    }
    body
}

pub open spec fn function_placed(function: FunctionModel) -> FunctionModel {
    FunctionModel { body: body_placed(function), ..function }
}

pub open spec fn program_placed(program: ProgramModel) -> ProgramModel {
    ProgramModel {
        functions: program.functions.map_values(|f: FunctionModel| function_placed(f)),
        ..program
    }
}

/// Places the declarations of every function.
pub fn run(program: &mut Program)
    ensures
        final(program).model() == program_placed(old(program).model()),
{
    let ghost before = function_models(program.functions@);
    let ghost initial = *program;
    let total: usize = program.functions.len();
    let mut i: usize = 0;
    while i < total
        invariant
            i <= total,
            total == program.functions@.len(),
            total == before.len(),
            *program == (Program { functions: program.functions, ..initial }),
            forall|k: int|
                0 <= k < i ==> (#[trigger] program.functions@[k]).model() == function_placed(
                    before[k],
                ),
            forall|k: int|
                i <= k < total ==> (#[trigger] program.functions@[k]).model() == before[k],
        decreases total - i,
    {
        let body: Vec<(usize, IRInst)> = place_function(&program.functions[i]);
        program.functions[i].body = body;
        i = i + 1;
    }
    assert(program.model().functions =~= program_placed(initial.model()).functions);
}

/// Whether a path begins with another.
pub open spec fn begins_with(path: Seq<Step>, start: Seq<Step>) -> bool {
    &&& start.len() <= path.len()
    &&& forall|k: int| 0 <= k < start.len() ==> #[trigger] path[k] == start[k]
}

proof fn lemma_common(a: Seq<Step>, b: Seq<Step>, from: int)
    requires
        0 <= from <= a.len(),
        from <= b.len(),
        forall|k: int| 0 <= k < from ==> #[trigger] a[k] == b[k],
    ensures
        from <= common(a, b, from) <= a.len(),
        common(a, b, from) <= b.len(),
        forall|k: int| 0 <= k < common(a, b, from) ==> #[trigger] a[k] == b[k],
        ({
            let end = common(a, b, from);
            end == a.len() || end == b.len() || a[end] != b[end]
        }),
    decreases a.len() - from,
{
    if from < a.len() && from < b.len() && a[from] == b[from] {
        lemma_common(a, b, from + 1);
    }
}

/// The block that uses share holds them all, and is the innermost that does.
pub proof fn law_shared_block_is_the_innermost(uses: Seq<UseModel>, count: int)
    requires
        0 < count <= uses.len(),
    ensures
        forall|i: int|
            0 <= i < count ==> begins_with((#[trigger] uses[i]).scope, shared(uses, count)),
        forall|path: Seq<Step>|
            (forall|i: int| 0 <= i < count ==> begins_with((#[trigger] uses[i]).scope, path))
                ==> #[trigger] begins_with(shared(uses, count), path),
    decreases count,
{
    let made = shared(uses, count);
    if count > 1 {
        law_shared_block_is_the_innermost(uses, count - 1);
        let before = shared(uses, count - 1);
        let last = uses[count - 1].scope;
        let length = common(before, last, 0);
        lemma_common(before, last, 0);
        assert forall|i: int| 0 <= i < count implies begins_with(
            (#[trigger] uses[i]).scope,
            made,
        ) by {
            if i < count - 1 {
                assert(begins_with(uses[i].scope, before));
                assert forall|k: int| 0 <= k < made.len() implies #[trigger] uses[i].scope[k]
                    == made[k] by {
                    assert(uses[i].scope[k] == before[k]);
                }
            } else {
                assert forall|k: int| 0 <= k < made.len() implies #[trigger] last[k]
                    == made[k] by {
                    assert(before[k] == last[k]);
                }
            }
        }
        assert forall|path: Seq<Step>|
            (forall|i: int| 0 <= i < count ==> begins_with(
                (#[trigger] uses[i]).scope,
                path,
            )) implies #[trigger] begins_with(made, path) by {
            assert(begins_with(before, path));
            assert(begins_with(uses[count - 1].scope, path));
            if path.len() > length {
                assert(before[length] == path[length]);
                assert(last[length] == path[length]);
            }
            assert forall|k: int| 0 <= k < path.len() implies #[trigger] made[k] == path[k] by {
                assert(before[k] == path[k]);
            }
        }
    } else {
        assert(made == uses[0].scope);
        assert forall|path: Seq<Step>|
            (forall|i: int| 0 <= i < count ==> begins_with(
                (#[trigger] uses[i]).scope,
                path,
            )) implies #[trigger] begins_with(made, path) by {
            assert(begins_with(uses[0].scope, path));
        }
    }
}

/// The declaration stands at or before every use in its block, and at one of them.
pub proof fn law_declarations_come_first(uses: Seq<UseModel>, depth: int, count: int)
    requires
        0 < count <= uses.len(),
    ensures
        forall|i: int|
            0 <= i < count ==> first_position(uses, depth, count) <= position(
                #[trigger] uses[i],
                depth,
            ),
        exists|i: int|
            0 <= i < count && first_position(uses, depth, count) == position(
                #[trigger] uses[i],
                depth,
            ),
    decreases count,
{
    if count > 1 {
        law_declarations_come_first(uses, depth, count - 1);
        assert(position(uses[count - 1], depth) >= first_position(uses, depth, count));
    } else {
        assert(first_position(uses, depth, count) == position(uses[0], depth));
    }
}

/// The steps that a declaration may follow enter no loop that it was outside of, so
/// that values carried from one round to the next stay outside.
pub proof fn law_declarations_enter_no_loop(scope: Seq<Step>, original: Seq<Step>, from: int)
    requires
        0 <= from <= scope.len(),
    ensures
        from <= loop_limit(scope, original, from) <= scope.len(),
        forall|k: int|
            from <= k < loop_limit(scope, original, from) && (#[trigger] scope[k]).child
                == Child::Loop ==> k < original.len() && original[k] == scope[k],
    decreases scope.len() - from,
{
    if from < scope.len() && !(scope[from].child == Child::Loop && (from >= original.len()
        || original[from] != scope[from])) {
        law_declarations_enter_no_loop(scope, original, from + 1);
    }
}

} // verus!
