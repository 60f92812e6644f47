//! What is known before an instruction: conditions that hold, and variables that
//! hold what an address does.
use crate::irt6::arithmetic::{
    negation, opposite, plain_value, Context, ContextModel, Kind, KindModel, Value, ValueModel,
};
use crate::irt6::effects::{
    expression_effects, expression_reads, instruction_effects, is_repeatable, repeatable, Effects,
    EffectsModel,
};
use crate::irt6::ir::{
    body_models, field_address, field_of, models, IRBinOpKind, IRExpr, IRInst, InstModel,
    VariableId,
};
use crate::irt6::shapes::boolean::comparison_holds;
use crate::irt6::shapes::loops::{reads_any, value_reads_any};
use crate::irt6::shapes::{literal_number, unsigned_constant};
use crate::table::{KeySet, Table};
use vstd::prelude::*;

verus! {

pub struct FactsModel {
    pub conditions: Seq<ValueModel>,
    pub loaded_from: Map<VariableId, IRExpr>,
}

pub struct Facts {
    pub conditions: Vec<Value>,
    /// A variable last loaded from an address that has not since been written.
    pub loaded_from: Table<VariableId, IRExpr>,
}

pub open spec fn value_models(values: Seq<Value>) -> Seq<ValueModel> {
    values.map_values(|v: Value| v.model())
}

pub open spec fn no_facts() -> FactsModel {
    FactsModel { conditions: Seq::empty(), loaded_from: Map::empty() }
}

/// The base of an access, and where it starts and ends.
pub open spec fn accessed(address: IRExpr) -> Option<(IRExpr, int, int)> {
    match address {
        IRExpr::MemoryAddress { address: inner, size: Some(size) } => match field_of(*inner) {
            Some((base, offset)) => within(base, offset as int, offset + size),
            None => None,
        },
        IRExpr::ElementAddress { base, index, element_size } => match literal_number(*index) {
            Some(number) => if number <= usize::MAX && number * element_size <= usize::MAX {
                within(*base, number * element_size, number * element_size + element_size)
            } else {
                None
            },
            None => None,
        },
        _ => None,
    }
}

pub open spec fn within(base: IRExpr, start: int, end: int) -> Option<(IRExpr, int, int)> {
    if end <= usize::MAX {
        Some((base, start, end))
    } else {
        None
    }
}

/// Whether two addresses with the same base access different bytes.
pub open spec fn are_disjoint(left: IRExpr, right: IRExpr) -> bool {
    match (accessed(left), accessed(right)) {
        (Some((left_base, left_start, left_end)), Some((right_base, right_start, right_end))) => {
            left_base == right_base && (left_end <= right_start || right_end <= left_start)
        },
        _ => false,
    }
}

fn access(address: &IRExpr) -> (res: Option<(&IRExpr, usize, usize)>)
    ensures
        match res {
            Some((base, start, end)) => accessed(*address) == Some(
                (*base, start as int, end as int),
            ),
            None => accessed(*address) is None,
        },
{
    match address {
        IRExpr::MemoryAddress { address: inner, size: Some(size) } => match field_address(inner) {
            Some((base, offset)) => match offset.checked_add(*size) {
                Some(end) => Some((base, offset, end)),
                None => None,
            },
            None => None,
        },
        IRExpr::ElementAddress { base, index, element_size } => match unsigned_constant(index) {
            Some(number) => {
                if number > usize::MAX as u64 {
                    return None;
                }
                match (number as usize).checked_mul(*element_size) {
                    Some(start) => match start.checked_add(*element_size) {
                        Some(end) => Some((&**base, start, end)),
                        None => None,
                    },
                    None => None,
                }
            },
            None => None,
        },
        _ => None,
    }
}

fn disjoint_accesses(left: &IRExpr, right: &IRExpr) -> (res: bool)
    ensures
        res == are_disjoint(*left, *right),
{
    match (access(left), access(right)) {
        (Some((left_base, left_start, left_end)), Some((right_base, right_start, right_end))) => {
            left_base.same(right_base) && (left_end <= right_start || right_end <= left_start)
        },
        _ => false,
    }
}

/// Distinct bytes stay distinct whichever way they are compared, and no access of
/// at least one byte lies apart from itself.
pub proof fn law_disjoint_accesses(left: IRExpr, right: IRExpr)
    ensures
        are_disjoint(left, right) == are_disjoint(right, left),
        (accessed(left) matches Some((_, start, end)) && start < end) ==> !are_disjoint(left, left),
{
}

pub open spec fn writes_no_memory(instr: InstModel) -> bool {
    !instruction_effects(instr).memory_write && !instruction_effects(instr).unknown_write
}

fn no_memory_writes(instr: &IRInst) -> (res: bool)
    ensures
        res == writes_no_memory(instr.model()),
{
    let effects: Effects = Effects::of_instruction(instr);
    !effects.memory_write && !effects.unknown_write
}

/// Whether all that an instruction writes lies apart from what an address
/// accesses.
pub open spec fn leaves_address(instr: InstModel, address: IRExpr) -> bool
    decreases instr,
{
    match instr {
        InstModel::Assign { dest, .. } => match dest {
            IRExpr::Deref(written) => are_disjoint(address, *written),
            _ => writes_no_memory(instr),
        },
        InstModel::CompoundAssign { dest, .. } => match dest {
            IRExpr::Deref(written) => are_disjoint(address, *written),
            _ => writes_no_memory(instr),
        },
        InstModel::StoreVariable { address: written, .. } => are_disjoint(address, written),
        InstModel::If {
            then_branch,
            else_branch,
            ..
        } => leaves_address_list(then_branch, address) && leaves_address_list(else_branch, address),
        InstModel::While { body, .. } => leaves_address_body(body, address),
        InstModel::ForEach { body, .. } => leaves_address_body(body, address),
        _ => writes_no_memory(instr),
    }
}

pub open spec fn leaves_address_list(list: Seq<InstModel>, address: IRExpr) -> bool
    decreases list,
{
    if list.len() == 0 {
        true
    } else {
        leaves_address_list(list.drop_last(), address) && leaves_address(
            list[list.len() - 1],
            address,
        )
    }
}

pub open spec fn leaves_address_body(list: Seq<(usize, InstModel)>, address: IRExpr) -> bool
    decreases list,
{
    if list.len() == 0 {
        true
    } else {
        leaves_address_body(list.drop_last(), address) && leaves_address(
            list[list.len() - 1].1,
            address,
        )
    }
}

pub fn writes_disjoint(instr: &IRInst, address: &IRExpr) -> (res: bool)
    ensures
        res == leaves_address(instr.model(), *address),
    decreases instr,
{
    match instr {
        IRInst::Assign { dest, .. } => match dest {
            IRExpr::Deref(written) => disjoint_accesses(address, written),
            _ => no_memory_writes(instr),
        },
        IRInst::CompoundAssign { dest, .. } => match dest {
            IRExpr::Deref(written) => disjoint_accesses(address, written),
            _ => no_memory_writes(instr),
        },
        IRInst::StoreVariable { address: written, .. } => disjoint_accesses(address, written),
        IRInst::If {
            then_branch,
            else_branch,
            ..
        } => writes_disjoint_list(
            then_branch,
            address,
        ) && writes_disjoint_list(else_branch, address),
        IRInst::While { body, .. } => writes_disjoint_body(body, address),
        IRInst::ForEach { body, .. } => writes_disjoint_body(body, address),
        _ => no_memory_writes(instr),
    }
}

pub fn writes_disjoint_list(list: &Vec<IRInst>, address: &IRExpr) -> (res: bool)
    ensures
        res == leaves_address_list(models(list@), *address),
    decreases list,
{
    let ghost all = models(list@);
    assert(all.subrange(0, 0) =~= Seq::empty());
    let mut res: bool = true;
    let mut i: usize = 0;
    while i < list.len()
        invariant
            i <= list@.len(),
            all == models(list@),
            res == leaves_address_list(all.subrange(0, i as int), *address),
        decreases list@.len() - i,
    {
        let ghost prefix = all.subrange(0, i + 1);
        assert(prefix.drop_last() =~= all.subrange(0, i as int));
        assert(decreases_to!(list => list@[i as int]));
        res = res && writes_disjoint(&list[i], address);
        i = i + 1;
    }
    assert(all.subrange(0, i as int) =~= all);
    res
}

pub fn writes_disjoint_body(list: &Vec<(usize, IRInst)>, address: &IRExpr) -> (res: bool)
    ensures
        res == leaves_address_body(body_models(list@), *address),
    decreases list,
{
    let ghost all = body_models(list@);
    assert(all.subrange(0, 0) =~= Seq::empty());
    let mut res: bool = true;
    let mut i: usize = 0;
    while i < list.len()
        invariant
            i <= list@.len(),
            all == body_models(list@),
            res == leaves_address_body(all.subrange(0, i as int), *address),
        decreases list@.len() - i,
    {
        let ghost prefix = all.subrange(0, i + 1);
        assert(prefix.drop_last() =~= all.subrange(0, i as int));
        assert(decreases_to!(list => list@[i as int]));
        res = res && writes_disjoint(&list[i].1, address);
        i = i + 1;
    }
    assert(all.subrange(0, i as int) =~= all);
    res
}


/// What writes between two points: an instruction, or a loop body.
pub enum Writer<'a> {
    One(&'a IRInst),
    All(&'a Vec<(usize, IRInst)>),
}

pub enum WriterModel {
    One(InstModel),
    All(Seq<(usize, InstModel)>),
}

impl WriterModel {
    pub open spec fn leaves(self, address: IRExpr) -> bool {
        match self {
            WriterModel::One(instr) => leaves_address(instr, address),
            WriterModel::All(body) => leaves_address_body(body, address),
        }
    }
}

impl<'a> Writer<'a> {
    pub open spec fn model(self) -> WriterModel {
        match self {
            Writer::One(instr) => WriterModel::One(instr.model()),
            Writer::All(body) => WriterModel::All(body_models(body@)),
        }
    }

    fn leaves(&self, address: &IRExpr) -> (res: bool)
        ensures
            res == self.model().leaves(*address),
    {
        match self {
            Writer::One(instr) => writes_disjoint(instr, address),
            Writer::All(body) => writes_disjoint_body(body, address),
        }
    }
}

/// The conditions that read nothing of what is written.
pub open spec fn kept_conditions(conditions: Seq<ValueModel>, writes: Set<VariableId>) -> Seq<
    ValueModel,
>
    decreases conditions.len(),
{
    if conditions.len() == 0 {
        Seq::empty()
    } else {
        let before = kept_conditions(conditions.drop_last(), writes);
        if reads_any(conditions.last(), writes) {
            before
        } else {
            before.push(conditions.last())
        }
    }
}

/// Whether a variable still holds what its address does.
pub open spec fn still_loaded(
    variable: VariableId,
    address: IRExpr,
    effects: EffectsModel,
    writer: WriterModel,
) -> bool {
    (!effects.memory_write || writer.leaves(address)) && !effects.writes.contains(variable)
        && expression_effects(address).reads.disjoint(effects.writes)
}

/// The variable that an instruction loads, and the address.
pub open spec fn load_of(instr: InstModel) -> Option<(VariableId, IRExpr)> {
    match instr {
        InstModel::AssignVariable { variable, value: IRExpr::Deref(address) } => Some(
            (variable, *address),
        ),
        InstModel::DeclareAndAssignVariable { variable, value: IRExpr::Deref(address), .. } => {
            Some((variable, *address))
        },
        InstModel::Assign { dest: IRExpr::Variable(variable), src: IRExpr::Deref(address) } => {
            Some((variable, *address))
        },
        InstModel::LoadVariable { variable, address } => Some((variable, address)),
        _ => None,
    }
}

/// What a condition says of a value being zero.
pub open spec fn zero_by(fact: ValueModel, value: ValueModel) -> Option<bool> {
    match fact.kind {
        KindModel::Binary { kind, lhs, rhs } => if (*lhs == value && rhs.kind
            == KindModel::Constant(0)) || (*rhs == value && lhs.kind == KindModel::Constant(0)) {
            match kind {
                IRBinOpKind::Eq => Some(true),
                IRBinOpKind::Ne => Some(false),
                _ => None,
            }
        } else {
            None
        },
        _ => None,
    }
}

/// What the first condition from an index on that says so says of a value being
/// zero.
pub open spec fn zero_from(conditions: Seq<ValueModel>, index: int, value: ValueModel) -> Option<
    bool,
>
    decreases conditions.len() - index,
{
    if index < 0 || index >= conditions.len() {
        None
    } else if zero_by(conditions[index], value) is Some {
        zero_by(conditions[index], value)
    } else {
        zero_from(conditions, index + 1, value)
    }
}

impl FactsModel {
    /// The facts where a condition was found true or false.
    pub open spec fn assuming(
        self,
        expression: IRExpr,
        truth: bool,
        context: ContextModel,
    ) -> Self {
        if is_repeatable(expression) {
            let value = plain_value(context, expression);
            FactsModel {
                conditions: self.conditions.push(
                    if truth {
                        value
                    } else {
                        negation(value)
                    },
                ),
                ..self
            }
        } else {
            self
        }
    }

    /// The facts that outlive the writes.
    pub open spec fn after(self, effects: EffectsModel, writer: WriterModel) -> Self {
        if effects.unknown_write {
            no_facts()
        } else {
            FactsModel {
                conditions: kept_conditions(self.conditions, effects.writes),
                loaded_from: Map::new(
                    |v: VariableId|
                        self.loaded_from.dom().contains(v) && still_loaded(
                            v,
                            self.loaded_from[v],
                            effects,
                            writer,
                        ),
                    |v: VariableId| self.loaded_from[v],
                ),
            }
        }
    }

    /// The facts with the load of an instruction.
    pub open spec fn observing(self, instr: InstModel) -> Self {
        match load_of(instr) {
            Some((variable, address)) => if is_repeatable(address) && !expression_effects(
                address,
            ).reads.contains(variable) {
                FactsModel { loaded_from: self.loaded_from.insert(variable, address), ..self }
            } else {
                self
            },
            None => self,
        }
    }

    /// Whether a destination holds the dividend already.
    pub open spec fn holds(self, destination: IRExpr, dividend: IRExpr) -> bool {
        match (destination, dividend) {
            (IRExpr::Variable(destination), IRExpr::Variable(dividend)) => destination == dividend,
            (IRExpr::Deref(address), IRExpr::Variable(variable)) => self.loaded_from.dom().contains(
                variable,
            ) && self.loaded_from[variable] == *address,
            _ => false,
        }
    }

    /// Whether a value is known to be zero or not.
    pub open spec fn zero(self, value: ValueModel) -> Option<bool> {
        match value.kind {
            KindModel::Constant(constant) => Some(constant == 0),
            _ => zero_from(self.conditions, 0, value),
        }
    }
}

fn is_constant_zero(value: &Value) -> (res: bool)
    ensures
        res == (value.model().kind == KindModel::Constant(0)),
{
    match value.kind {
        Kind::Constant(constant) => constant == 0,
        _ => false,
    }
}

fn zero_in(fact: &Value, value: &Value) -> (res: Option<bool>)
    ensures
        res == zero_by(fact.model(), value.model()),
{
    match &fact.kind {
        Kind::Binary { kind, lhs, rhs } => {
            if (lhs.same(value) && is_constant_zero(rhs)) || (rhs.same(value) && is_constant_zero(
                lhs,
            )) {
                match *kind {
                    IRBinOpKind::Eq => Some(true),
                    IRBinOpKind::Ne => Some(false),
                    _ => None,
                }
            } else {
                None
            }
        },
        _ => None,
    }
}

impl Facts {
    pub open spec fn model(self) -> FactsModel {
        FactsModel {
            conditions: value_models(self.conditions@),
            loaded_from: self.loaded_from@,
        }
    }

    pub fn new() -> (res: Self)
        ensures
            res.model() == no_facts(),
    {
        let res = Facts { conditions: Vec::new(), loaded_from: Table::new() };
        assert(res.model().conditions =~= Seq::empty());
        res
    }

    pub fn copied(&self) -> (res: Self)
        ensures
            res.model() == self.model(),
    {
        let mut conditions: Vec<Value> = Vec::new();
        let mut i: usize = 0;
        while i < self.conditions.len()
            invariant
                i <= self.conditions@.len(),
                conditions@.len() == i,
                forall|k: int|
                    0 <= k < i ==> (#[trigger] conditions@[k]).model()
                        == self.conditions@[k].model(),
            decreases self.conditions@.len() - i,
        {
            conditions.push(self.conditions[i].clone());
            i = i + 1;
        }
        assert(value_models(conditions@) =~= value_models(self.conditions@));
        let keys: Vec<VariableId> = self.loaded_from.keys();
        let mut loaded_from: Table<VariableId, IRExpr> = Table::new();
        let mut i: usize = 0;
        while i < keys.len()
            invariant
                i <= keys@.len(),
                forall|v: VariableId| #[trigger]
                    keys@.contains(v) <==> self.loaded_from@.dom().contains(v),
                forall|v: VariableId| #[trigger]
                    loaded_from@.dom().contains(v) ==> self.loaded_from@.dom().contains(v)
                        && loaded_from@[v] == self.loaded_from@[v],
                forall|k: int| 0 <= k < i ==> loaded_from@.dom().contains(#[trigger] keys@[k]),
            decreases keys@.len() - i,
        {
            let key: VariableId = keys[i];
            assert(keys@.contains(key));
            if let Some(address) = self.loaded_from.get(key) {
                loaded_from.insert(key, address.clone());
            }
            i = i + 1;
        }
        assert forall|v: VariableId| self.loaded_from@.dom().contains(
            v,
        ) implies loaded_from@.dom().contains(v) by {
            assert(keys@.contains(v));
            let k = choose|k: int| 0 <= k < keys@.len() && keys@[k] == v;
            assert(loaded_from@.dom().contains(keys@[k]));
        }
        assert(loaded_from@ =~= self.loaded_from@);
        Facts { conditions, loaded_from }
    }

    pub fn assume_condition(&mut self, expression: &IRExpr, truth: bool, context: &Context)
        ensures
            final(self).model() == old(self).model().assuming(*expression, truth, context@),
    {
        if repeatable(expression) {
            let value: Value = context.value(expression);
            let fact: Value = if truth {
                value
            } else {
                value.negated()
            };
            let ghost before = value_models(self.conditions@);
            let ghost added = fact.model();
            self.conditions.push(fact);
            assert(value_models(self.conditions@) =~= before.push(added));
        }
    }

    pub fn invalidate(&mut self, effects: &Effects, writer: Writer)
        ensures
            final(self).model() == old(self).model().after(effects@, writer.model()),
    {
        let ghost before = self.model();
        if effects.unknown_write {
            self.conditions = Vec::new();
            self.loaded_from = Table::new();
            assert(self.model().conditions =~= Seq::empty());
            return;
        }
        let mut conditions: Vec<Value> = Vec::new();
        assert(before.conditions.subrange(0, 0) =~= Seq::empty());
        assert(value_models(conditions@) =~= Seq::empty());
        let mut i: usize = 0;
        while i < self.conditions.len()
            invariant
                i <= self.conditions@.len(),
                before == self.model(),
                value_models(conditions@) == kept_conditions(
                    before.conditions.subrange(0, i as int),
                    effects.writes@,
                ),
            decreases self.conditions@.len() - i,
        {
            let ghost prefix = before.conditions.subrange(0, i + 1);
            assert(prefix.drop_last() =~= before.conditions.subrange(0, i as int));
            assert(prefix.last() == self.conditions@[i as int].model());
            if !value_reads_any(&self.conditions[i], &effects.writes) {
                let ghost kept = value_models(conditions@);
                conditions.push(self.conditions[i].clone());
                assert(value_models(conditions@) =~= kept.push(prefix.last()));
            }
            i = i + 1;
        }
        assert(before.conditions.subrange(0, i as int) =~= before.conditions);
        let keys: Vec<VariableId> = self.loaded_from.keys();
        let mut loaded_from: Table<VariableId, IRExpr> = Table::new();
        let ghost expected = before.after(effects@, writer.model()).loaded_from;
        let mut i: usize = 0;
        while i < keys.len()
            invariant
                i <= keys@.len(),
                before == self.model(),
                !effects.unknown_write,
                expected == before.after(effects@, writer.model()).loaded_from,
                forall|v: VariableId| #[trigger]
                    keys@.contains(v) <==> self.loaded_from@.dom().contains(v),
                forall|v: VariableId| #[trigger]
                    loaded_from@.dom().contains(v) ==> expected.dom().contains(v) && loaded_from@[v]
                        == expected[v],
                forall|k: int|
                    0 <= k < i && expected.dom().contains(#[trigger] keys@[k])
                        ==> loaded_from@.dom().contains(keys@[k]),
            decreases keys@.len() - i,
        {
            let key: VariableId = keys[i];
            assert(keys@.contains(key));
            if let Some(address) = self.loaded_from.get(key) {
                let reads: KeySet<VariableId> = Effects::of_expression(address).reads;
                if (!effects.memory_write || writer.leaves(address)) && !effects.writes.contains(
                    key,
                ) && reads.is_disjoint(&effects.writes) {
                    loaded_from.insert(key, address.clone());
                }
            }
            i = i + 1;
        }
        assert forall|v: VariableId| expected.dom().contains(
            v,
        ) implies loaded_from@.dom().contains(v) by {
            assert(keys@.contains(v));
            let k = choose|k: int| 0 <= k < keys@.len() && keys@[k] == v;
            assert(expected.dom().contains(keys@[k]));
        }
        assert(loaded_from@ =~= expected);
        self.conditions = conditions;
        self.loaded_from = loaded_from;
    }

    pub fn observe(&mut self, instr: &IRInst)
        ensures
            final(self).model() == old(self).model().observing(instr.model()),
    {
        let loaded: Option<(VariableId, &IRExpr)> = match instr {
            IRInst::AssignVariable { variable, value } => match value {
                IRExpr::Deref(address) => Some((*variable, &**address)),
                _ => None,
            },
            IRInst::DeclareAndAssignVariable { variable, value, .. } => match value {
                IRExpr::Deref(address) => Some((*variable, &**address)),
                _ => None,
            },
            IRInst::Assign { dest, src } => match (dest, src) {
                (IRExpr::Variable(variable), IRExpr::Deref(address)) => Some(
                    (*variable, &**address),
                ),
                _ => None,
            },
            IRInst::LoadVariable { variable, address } => Some((*variable, address)),
            _ => None,
        };
        if let Some((variable, address)) = loaded {
            if repeatable(address) && !expression_reads(address, variable) {
                self.loaded_from.insert(variable, address.clone());
            }
        }
    }

    pub fn destination_contains(&self, destination: &IRExpr, dividend: &IRExpr) -> (res: bool)
        ensures
            res == self.model().holds(*destination, *dividend),
    {
        match (destination, dividend) {
            (IRExpr::Variable(destination), IRExpr::Variable(dividend)) => *destination
                == *dividend,
            (IRExpr::Deref(address), IRExpr::Variable(variable)) => match self.loaded_from.get(
                *variable,
            ) {
                Some(found) => found.same(address),
                None => false,
            },
            _ => false,
        }
    }

    pub fn is_zero(&self, value: &Value) -> (res: Option<bool>)
        ensures
            res == self.model().zero(value.model()),
    {
        if let Kind::Constant(constant) = value.kind {
            return Some(constant == 0);
        }
        let ghost all = value_models(self.conditions@);
        let mut i: usize = 0;
        while i < self.conditions.len()
            invariant
                i <= self.conditions@.len(),
                all == value_models(self.conditions@),
                zero_from(all, 0, value.model()) == zero_from(all, i as int, value.model()),
                !(value.model().kind is Constant),
            decreases self.conditions@.len() - i,
        {
            assert(all[i as int] == self.conditions@[i as int].model());
            let found: Option<bool> = zero_in(&self.conditions[i], value);
            if found.is_some() {
                return found;
            }
            i = i + 1;
        }
        None
    }
}

proof fn lemma_kept_conditions(conditions: Seq<ValueModel>, writes: Set<VariableId>)
    ensures
        forall|i: int|
            0 <= i < kept_conditions(conditions, writes).len() ==> {
                let condition = #[trigger] kept_conditions(conditions, writes)[i];
                !reads_any(condition, writes) && conditions.contains(condition)
            },
    decreases conditions.len(),
{
    if conditions.len() > 0 {
        lemma_kept_conditions(conditions.drop_last(), writes);
        let before = kept_conditions(conditions.drop_last(), writes);
        assert forall|i: int| 0 <= i < before.len() implies conditions.contains(
            #[trigger] before[i],
        ) by {
            let at = choose|k: int|
                0 <= k < conditions.drop_last().len() && conditions.drop_last()[k] == before[i];
            assert(conditions[at] == before[i]);
        }
        assert(conditions[conditions.len() - 1] == conditions.last());
    }
}

/// Writes leave only facts that were known before and that read nothing of what is
/// written; a write to an unknown place leaves none.
pub proof fn law_writes_invalidate_facts(
    facts: FactsModel,
    effects: EffectsModel,
    writer: WriterModel,
)
    ensures
        ({
            let left = facts.after(effects, writer);
            &&& effects.unknown_write ==> left == no_facts()
            &&& forall|i: int|
                0 <= i < left.conditions.len() ==> {
                    let condition = #[trigger] left.conditions[i];
                    !reads_any(condition, effects.writes) && facts.conditions.contains(condition)
                }
            &&& forall|v: VariableId| #[trigger]
                left.loaded_from.dom().contains(v) ==> {
                    &&& facts.loaded_from.dom().contains(v)
                    &&& left.loaded_from[v] == facts.loaded_from[v]
                    &&& !effects.writes.contains(v)
                    &&& expression_effects(left.loaded_from[v]).reads.disjoint(effects.writes)
                    &&& effects.memory_write ==> writer.leaves(left.loaded_from[v])
                }
        }),
{
    lemma_kept_conditions(facts.conditions, effects.writes);
}

/// Whether a value is true, where `numbers` gives what values stand for.
pub open spec fn holds_true(value: ValueModel, numbers: spec_fn(ValueModel) -> u64) -> bool
    decreases value,
{
    match value.kind {
        KindModel::Not(inner) => !holds_true(*inner, numbers),
        KindModel::Binary { kind, lhs, rhs } => match kind {
            IRBinOpKind::Or => holds_true(*lhs, numbers) || holds_true(*rhs, numbers),
            IRBinOpKind::LogicalAnd => holds_true(*lhs, numbers) && holds_true(*rhs, numbers),
            _ => if opposite(kind) is Some {
                comparison_holds(kind, numbers(*lhs), numbers(*rhs))
            } else {
                numbers(value) != 0
            },
        },
        _ => numbers(value) != 0,
    }
}

/// Whether constants stand for themselves.
pub open spec fn knows_constants(numbers: spec_fn(ValueModel) -> u64) -> bool {
    forall|v: ValueModel|
        match v.kind {
            KindModel::Constant(constant) => #[trigger] numbers(v) == constant,
            _ => true,
        }
}

/// Whether every condition of the facts is true.
pub open spec fn all_true(facts: FactsModel, numbers: spec_fn(ValueModel) -> u64) -> bool {
    forall|i: int|
        0 <= i < facts.conditions.len() ==> holds_true(#[trigger] facts.conditions[i], numbers)
}

/// The negation of a value is true exactly where the value is not.
pub proof fn law_negated_values_are_the_complement(
    value: ValueModel,
    numbers: spec_fn(ValueModel) -> u64,
)
    ensures
        holds_true(negation(value), numbers) == !holds_true(value, numbers),
    decreases value,
{
    match value.kind {
        KindModel::Binary { kind, lhs, rhs } => {
            law_negated_values_are_the_complement(*lhs, numbers);
            law_negated_values_are_the_complement(*rhs, numbers);
            match opposite(kind) {
                Some(other) => {
                    assert(opposite(other) is Some);
                },
                None => {
                    let inverse = ValueModel {
                        bits: Some(1),
                        kind: KindModel::Not(Box::new(value)),
                    };
                    assert(holds_true(inverse, numbers) == !holds_true(value, numbers));
                },
            }
        },
        _ => {
            let inverse = ValueModel { bits: Some(1), kind: KindModel::Not(Box::new(value)) };
            assert(holds_true(inverse, numbers) == !holds_true(value, numbers));
        },
    }
}

/// Assuming what a condition was found to be keeps the facts true.
pub proof fn law_assumptions_are_true(
    facts: FactsModel,
    expression: IRExpr,
    found: bool,
    context: ContextModel,
    numbers: spec_fn(ValueModel) -> u64,
)
    requires
        all_true(facts, numbers),
        holds_true(plain_value(context, expression), numbers) == found,
    ensures
        all_true(facts.assuming(expression, found, context), numbers),
{
    law_negated_values_are_the_complement(plain_value(context, expression), numbers);
}

proof fn lemma_zero_from(
    conditions: Seq<ValueModel>,
    index: int,
    value: ValueModel,
    numbers: spec_fn(ValueModel) -> u64,
)
    requires
        0 <= index,
        forall|i: int|
            0 <= i < conditions.len() ==> holds_true(#[trigger] conditions[i], numbers),
        knows_constants(numbers),
    ensures
        zero_from(conditions, index, value) matches Some(zero) ==> zero == (numbers(value) == 0),
    decreases conditions.len() - index,
{
    if index < conditions.len() {
        let fact = conditions[index];
        assert(holds_true(fact, numbers));
        if zero_by(fact, value) is Some {
            if let KindModel::Binary { kind, lhs, rhs } = fact.kind {
                assert(rhs.kind == KindModel::Constant(0) ==> numbers(*rhs) == 0);
                assert(lhs.kind == KindModel::Constant(0) ==> numbers(*lhs) == 0);
            }
        } else {
            lemma_zero_from(conditions, index + 1, value, numbers);
        }
    }
}

/// What facts say of a value being zero is so wherever their conditions are true.
pub proof fn law_facts_are_sound(
    facts: FactsModel,
    value: ValueModel,
    numbers: spec_fn(ValueModel) -> u64,
)
    requires
        all_true(facts, numbers),
        knows_constants(numbers),
    ensures
        facts.zero(value) matches Some(zero) ==> zero == (numbers(value) == 0),
{
    lemma_zero_from(facts.conditions, 0, value, numbers);
    if let KindModel::Constant(constant) = value.kind {
        assert(numbers(value) == constant);
    }
}

} // verus!
