//! Fold scalar values across partitions before they become loop or merge slots.
//! Memory reads are never constants, even at a constant data address.
use super::ir::{
    body_models, data_models, function_models, models, DataId, DataModel, DataVariable,
    FunctionModel, IRBinOpKind, IRExpr, IRInst, InstModel, Parameter, Program, ProgramModel,
    SyntheticFunction, VariableId, VariableType,
};
use super::lifter::type_width;
use super::values::{
    binary, combined, constant, constant_of, convert, converted, width, width_of, Widths,
    WidthsModel,
};
use crate::table::{KeySet, Table};
use vstd::prelude::*;

verus! {

/// What is known of a value: nothing has reached it, every path brings the same
/// constant, or it varies.
#[derive(Debug)]
pub enum Value {
    Unseen,
    Constant(IRExpr),
    Dynamic,
}

impl Value {
    pub open spec fn joined(self, other: Value) -> Value {
        match (self, other) {
            (_, Value::Unseen) => self,
            (Value::Unseen, _) => other,
            (Value::Constant(a), Value::Constant(b)) => if a == b {
                self
            } else {
                Value::Dynamic
            },
            _ => Value::Dynamic,
        }
    }

    /// How often the value can still grow.
    pub open spec fn headroom(self) -> nat {
        match self {
            Value::Unseen => 2,
            Value::Constant(_) => 1,
            Value::Dynamic => 0,
        }
    }

    fn copied(&self) -> (res: Self)
        ensures
            res == *self,
    {
        match self {
            Value::Unseen => Value::Unseen,
            Value::Constant(value) => Value::Constant(value.clone()),
            Value::Dynamic => Value::Dynamic,
        }
    }

    /// Takes the other value in, and says whether that changed this one.
    fn join(&mut self, other: &Value) -> (res: bool)
        ensures
            *final(self) == old(self).joined(*other),
            res == (*final(self) != *old(self)),
    {
        let next: Value = match (&*self, other) {
            (_, Value::Unseen) => return false,
            (Value::Unseen, value) => value.copied(),
            (Value::Constant(a), Value::Constant(b)) => {
                if a.same(b) {
                    return false;
                }
                Value::Dynamic
            },
            (Value::Dynamic, _) => return false,
            _ => Value::Dynamic,
        };
        *self = next;
        true
    }
}

/// Joining is commutative and idempotent, and only ever grows.
pub proof fn law_values_join(a: Value, b: Value)
    ensures
        a.joined(b) == b.joined(a),
        a.joined(a) == a,
        a.joined(b).joined(b) == a.joined(b),
        a.joined(b) != a ==> a.joined(b).headroom() < a.headroom(),
{
}

// ---------------------------------------------------------------------------
// Widths

pub open spec fn data_widths(data: Seq<DataModel>) -> Map<DataId, usize>
    decreases data.len(),
{
    if data.len() == 0 {
        Map::empty()
    } else {
        let before = data_widths(data.drop_last());
        match data.last().ty {
            VariableType::Unknown(Some(size)) => before.insert(data.last().id, size),
            _ => before,
        }
    }
}

pub open spec fn parameter_widths(parameters: Seq<Parameter>, start: WidthsModel) -> WidthsModel
    decreases parameters.len(),
{
    if parameters.len() == 0 {
        start
    } else {
        let before = parameter_widths(parameters.drop_last(), start);
        match parameters.last() {
            Parameter::Slot { variable, register } => WidthsModel {
                variables: before.variables.insert(variable, register.width()),
                ..before
            },
            Parameter::Value { variable, size } => WidthsModel {
                variables: before.variables.insert(variable, size),
                ..before
            },
            Parameter::Native { ordinal, register } => WidthsModel {
                arguments: before.arguments.insert(ordinal, register.width()),
                ..before
            },
            Parameter::Input { ordinal, size } => WidthsModel {
                arguments: before.arguments.insert(ordinal, size),
                ..before
            },
        }
    }
}

pub open spec fn declared_widths(body: Seq<(usize, InstModel)>, start: WidthsModel) -> WidthsModel
    decreases body.len(),
{
    if body.len() == 0 {
        start
    } else {
        let before = declared_widths(body.drop_last(), start);
        match body.last().1 {
            InstModel::DeclareVariable { variable, ty } => match type_width(ty) {
                Some(size) => WidthsModel {
                    variables: before.variables.insert(variable, size),
                    ..before
                },
                None => before,
            },
            _ => before,
        }
    }
}

/// The widths that are known in a function.
pub open spec fn widths_in(function: FunctionModel, data: Seq<DataModel>) -> WidthsModel {
    declared_widths(
        function.body,
        parameter_widths(
            function.parameters,
            WidthsModel {
                variables: Map::empty(),
                arguments: Map::empty(),
                data: data_widths(data),
            },
        ),
    )
}

fn collect_widths(function: &SyntheticFunction, data: &Vec<DataVariable>) -> (res: Widths)
    ensures
        res.model() == widths_in(function.model(), data_models(data@)),
{
    let mut res: Widths = Widths {
        variables: Table::new(),
        arguments: Table::new(),
        data: Table::new(),
    };
    let ghost items = data_models(data@);
    assert(items.subrange(0, 0) =~= Seq::empty());
    let mut i: usize = 0;
    while i < data.len()
        invariant
            i <= data@.len(),
            items == data_models(data@),
            res.variables@ == Map::<VariableId, usize>::empty(),
            res.arguments@ == Map::<usize, usize>::empty(),
            res.data@ == data_widths(items.subrange(0, i as int)),
        decreases data@.len() - i,
    {
        let ghost prefix = items.subrange(0, i + 1);
        assert(prefix.drop_last() =~= items.subrange(0, i as int));
        if let VariableType::Unknown(Some(size)) = data[i].ty {
            res.data.insert(data[i].id, size);
        }
        i = i + 1;
    }
    assert(items.subrange(0, i as int) =~= items);
    let ghost start = res.model();
    let list = &function.parameters;
    assert(list@.subrange(0, 0) =~= Seq::empty());
    let mut i: usize = 0;
    while i < list.len()
        invariant
            i <= list@.len(),
            res.model() == parameter_widths(list@.subrange(0, i as int), start),
        decreases list@.len() - i,
    {
        let ghost prefix = list@.subrange(0, i + 1);
        assert(prefix.drop_last() =~= list@.subrange(0, i as int));
        match list[i] {
            Parameter::Slot { variable, register } => {
                res.variables.insert(variable, register.size());
            },
            Parameter::Value { variable, size } => {
                res.variables.insert(variable, size);
            },
            Parameter::Native { ordinal, register } => {
                res.arguments.insert(ordinal, register.size());
            },
            Parameter::Input { ordinal, size } => {
                res.arguments.insert(ordinal, size);
            },
        }
        i = i + 1;
    }
    assert(list@.subrange(0, i as int) =~= list@);
    let ghost middle = res.model();
    let ghost all = body_models(function.body@);
    assert(all.subrange(0, 0) =~= Seq::empty());
    let mut i: usize = 0;
    while i < function.body.len()
        invariant
            i <= function.body@.len(),
            all == body_models(function.body@),
            res.model() == declared_widths(all.subrange(0, i as int), middle),
        decreases function.body@.len() - i,
    {
        let ghost prefix = all.subrange(0, i + 1);
        assert(prefix.drop_last() =~= all.subrange(0, i as int));
        if let IRInst::DeclareVariable { variable, ty } = &function.body[i].1 {
            let size: Option<usize> = match ty {
                VariableType::Register(register) => Some(register.size()),
                VariableType::Unknown(size) => *size,
                VariableType::Bool => Some(1),
            };
            if let Some(size) = size {
                res.variables.insert(*variable, size);
            }
        }
        i = i + 1;
    }
    assert(all.subrange(0, i as int) =~= all);
    res
}

// ---------------------------------------------------------------------------
// Folding

/// The width of an operation, by its operands.
pub open spec fn operand_width(
    kind: IRBinOpKind,
    lhs: IRExpr,
    rhs: IRExpr,
    widths: WidthsModel,
) -> Option<usize> {
    if constant_of(lhs) is Some && kind != IRBinOpKind::Shl && kind != IRBinOpKind::Shr {
        width_of(rhs, widths)
    } else {
        width_of(lhs, widths)
    }
}

/// The expression with known constants put in and folded. The width of an
/// operation is that of its operands before they are replaced.
pub open spec fn folded(expr: IRExpr, widths: WidthsModel, known: Map<VariableId, Value>) -> IRExpr
    decreases expr,
{
    match expr {
        IRExpr::BinOp { kind, lhs, rhs } => match operand_width(kind, *lhs, *rhs, widths) {
            Some(size) => combined(
                kind,
                folded(*lhs, widths, known),
                folded(*rhs, widths, known),
                size,
            ),
            None => IRExpr::BinOp {
                kind,
                lhs: Box::new(folded(*lhs, widths, known)),
                rhs: Box::new(folded(*rhs, widths, known)),
            },
        },
        IRExpr::Deref(address) => IRExpr::Deref(Box::new(folded(*address, widths, known))),
        IRExpr::CastUnknownPtr { address, size } => IRExpr::CastUnknownPtr {
            address: Box::new(folded(*address, widths, known)),
            size,
        },
        IRExpr::Convert { value, source, target } => converted(
            folded(*value, widths, known),
            source.size,
            target.size,
            source.signed,
        ),
        IRExpr::Variable(
            variable,
        ) => if known.dom().contains(variable) && known[variable] is Constant {
            known[variable]->Constant_0
        } else {
            expr
        },
        IRExpr::Not(inner) => match folded(*inner, widths, known) {
            IRExpr::Bool(value) => IRExpr::Bool(!value),
            other => IRExpr::Not(Box::new(other)),
        },
        _ => expr,
    }
}

fn fold(expr: &IRExpr, widths: &Widths, known: &Table<VariableId, Value>) -> (res: IRExpr)
    ensures
        res == folded(*expr, widths.model(), known@),
    decreases expr,
{
    match expr {
        IRExpr::BinOp { kind, lhs, rhs } => {
            let size: Option<usize> = if constant(lhs).is_some() && !matches!(
                kind,
                IRBinOpKind::Shl | IRBinOpKind::Shr
            ) {
                width(rhs, widths)
            } else {
                width(lhs, widths)
            };
            let left: IRExpr = fold(lhs, widths, known);
            let right: IRExpr = fold(rhs, widths, known);
            match size {
                Some(size) => binary(*kind, left, right, size),
                None => IRExpr::BinOp { kind: *kind, lhs: Box::new(left), rhs: Box::new(right) },
            }
        },
        IRExpr::Deref(address) => IRExpr::Deref(Box::new(fold(address, widths, known))),
        IRExpr::CastUnknownPtr { address, size } => IRExpr::CastUnknownPtr {
            address: Box::new(fold(address, widths, known)),
            size: *size,
        },
        IRExpr::Convert { value, source, target } => convert(
            fold(value, widths, known),
            source.size,
            target.size,
            source.signed,
        ),
        IRExpr::Variable(variable) => match known.get(*variable) {
            Some(Value::Constant(value)) => value.clone(),
            _ => IRExpr::Variable(*variable),
        },
        IRExpr::Not(inner) => match fold(inner, widths, known) {
            IRExpr::Bool(value) => IRExpr::Bool(!value),
            other => IRExpr::Not(Box::new(other)),
        },
        _ => expr.clone(),
    }
}


/// What is known of the value of an expression.
pub open spec fn evaluated(
    expr: IRExpr,
    widths: WidthsModel,
    known: Map<VariableId, Value>,
) -> Value
    decreases expr,
{
    let value = folded(expr, widths, known);
    if constant_of(value) is Some {
        Value::Constant(value)
    } else {
        match expr {
            IRExpr::Variable(variable) => if known.dom().contains(variable) {
                known[variable]
            } else {
                Value::Dynamic
            },
            IRExpr::Convert { value: inner, .. } | IRExpr::Not(inner) => if evaluated(
                *inner,
                widths,
                known,
            ) == Value::Unseen {
                Value::Unseen
            } else {
                Value::Dynamic
            },
            IRExpr::BinOp { lhs, rhs, .. } => {
                let left = evaluated(*lhs, widths, known);
                let right = evaluated(*rhs, widths, known);
                if left != Value::Dynamic && right != Value::Dynamic && (left == Value::Unseen
                    || right == Value::Unseen) {
                    Value::Unseen
                } else {
                    Value::Dynamic
                }
            },
            _ => Value::Dynamic,
        }
    }
}

fn evaluate(expr: &IRExpr, widths: &Widths, known: &Table<VariableId, Value>) -> (res: Value)
    ensures
        res == evaluated(*expr, widths.model(), known@),
    decreases expr,
{
    let value: IRExpr = fold(expr, widths, known);
    if constant(&value).is_some() {
        return Value::Constant(value);
    }
    match expr {
        IRExpr::Variable(variable) => match known.get(*variable) {
            Some(value) => value.copied(),
            None => Value::Dynamic,
        },
        IRExpr::Convert { value: inner, .. } | IRExpr::Not(inner) => match evaluate(
            inner,
            widths,
            known,
        ) {
            Value::Unseen => Value::Unseen,
            _ => Value::Dynamic,
        },
        IRExpr::BinOp { lhs, rhs, .. } => match (
            evaluate(lhs, widths, known),
            evaluate(rhs, widths, known),
        ) {
            (Value::Dynamic, _) => Value::Dynamic,
            (_, Value::Dynamic) => Value::Dynamic,
            (Value::Unseen, _) => Value::Unseen,
            (_, Value::Unseen) => Value::Unseen,
            _ => Value::Dynamic,
        },
        _ => Value::Dynamic,
    }
}

pub open spec fn evaluated_all(
    list: Seq<IRExpr>,
    widths: WidthsModel,
    known: Map<VariableId, Value>,
) -> Seq<Value> {
    list.map_values(|e: IRExpr| evaluated(e, widths, known))
}

fn evaluate_all(list: &Vec<IRExpr>, widths: &Widths, known: &Table<VariableId, Value>) -> (res: Vec<
    Value,
>)
    ensures
        res@ == evaluated_all(list@, widths.model(), known@),
{
    let mut res: Vec<Value> = Vec::new();
    let mut i: usize = 0;
    while i < list.len()
        invariant
            i <= list@.len(),
            res@.len() == i,
            forall|k: int|
                0 <= k < i ==> (#[trigger] res@[k]) == evaluated(
                    list@[k],
                    widths.model(),
                    known@,
                ),
        decreases list@.len() - i,
    {
        res.push(evaluate(&list[i], widths, known));
        i = i + 1;
    }
    assert(res@ =~= evaluated_all(list@, widths.model(), known@));
    res
}

// ---------------------------------------------------------------------------
// Analysis

/// What is known after an instruction, and the calls in it with what is known of
/// their arguments.
pub open spec fn analyzed(
    instr: InstModel,
    widths: WidthsModel,
    known: Map<VariableId, Value>,
) -> (Map<VariableId, Value>, Seq<(usize, Seq<Value>)>)
    decreases instr,
{
    match instr {
        InstModel::AssignVariable { variable, value } => (
            known.insert(variable, evaluated(value, widths, known)),
            Seq::empty(),
        ),
        InstModel::LoadVariable { variable, .. } => (
            known.insert(variable, Value::Dynamic),
            Seq::empty(),
        ),
        InstModel::Assign { dest: IRExpr::Variable(variable), src } => (
            known.insert(variable, evaluated(src, widths, known)),
            Seq::empty(),
        ),
        InstModel::If { then_branch, else_branch, .. } => (
            known,
            analyzed_list(then_branch, widths, known).1 + analyzed_list(
                else_branch,
                widths,
                known,
            ).1,
        ),
        InstModel::CallSynthetic { function, arguments } => (
            known,
            seq![(function.id, evaluated_all(arguments, widths, known))],
        ),
        _ => (known, Seq::empty()),
    }
}

/// What is read from memory is never a constant, even at a constant address.
pub proof fn law_memory_reads_are_never_constants(
    address: IRExpr,
    variable: VariableId,
    widths: WidthsModel,
    known: Map<VariableId, Value>,
)
    ensures
        evaluated(IRExpr::Deref(Box::new(address)), widths, known) == Value::Dynamic,
        analyzed(
            InstModel::LoadVariable { variable, address },
            widths,
            known,
        ).0[variable] == Value::Dynamic,
{
}

pub open spec fn analyzed_list(
    list: Seq<InstModel>,
    widths: WidthsModel,
    known: Map<VariableId, Value>,
) -> (Map<VariableId, Value>, Seq<(usize, Seq<Value>)>)
    decreases list,
{
    if list.len() == 0 {
        (known, Seq::empty())
    } else {
        let before = analyzed_list(list.drop_last(), widths, known);
        let last = analyzed(list[list.len() - 1], widths, before.0);
        (last.0, before.1 + last.1)
    }
}

pub open spec fn analyzed_body(
    list: Seq<(usize, InstModel)>,
    widths: WidthsModel,
    known: Map<VariableId, Value>,
) -> (Map<VariableId, Value>, Seq<(usize, Seq<Value>)>)
    decreases list.len(),
{
    if list.len() == 0 {
        (known, Seq::empty())
    } else {
        let before = analyzed_body(list.drop_last(), widths, known);
        let last = analyzed(list.last().1, widths, before.0);
        (last.0, before.1 + last.1)
    }
}

fn copy_known(known: &Table<VariableId, Value>) -> (res: Table<VariableId, Value>)
    ensures
        res@ == known@,
{
    let keys: Vec<VariableId> = known.keys();
    let mut res: Table<VariableId, Value> = Table::new();
    let mut i: usize = 0;
    while i < keys.len()
        invariant
            i <= keys@.len(),
            forall|k: VariableId| #[trigger] keys@.contains(k) <==> known@.dom().contains(k),
            forall|k: int| 0 <= k < i ==> res@.dom().contains(#[trigger] keys@[k]),
            forall|k: VariableId| #[trigger]
                res@.dom().contains(k) ==> known@.dom().contains(k) && res@[k] == known@[k],
        decreases keys@.len() - i,
    {
        assert(keys@.contains(keys@[i as int]));
        if let Some(value) = known.get(keys[i]) {
            res.insert(keys[i], value.copied());
        }
        i = i + 1;
    }
    proof {
        assert forall|k: VariableId| known@.dom().contains(
            k,
        ) implies #[trigger] res@.dom().contains(
        k) by {
            assert(keys@.contains(k));
            let j = choose|j: int| 0 <= j < keys@.len() && keys@[j] == k;
            assert(res@.dom().contains(keys@[j]));
        }
        assert(res@ =~= known@);
    }
    res
}

pub open spec fn edge_models(edges: Seq<(usize, Vec<Value>)>) -> Seq<(usize, Seq<Value>)> {
    edges.map_values(|e: (usize, Vec<Value>)| (e.0, e.1@))
}

fn analyze(
    instr: &IRInst,
    known: &mut Table<VariableId, Value>,
    widths: &Widths,
    edges: &mut Vec<(usize, Vec<Value>)>,
)
    ensures
        ({
            let made = analyzed(instr.model(), widths.model(), old(known)@);
            &&& final(known)@ == made.0
            &&& edge_models(final(edges)@) == edge_models(old(edges)@) + made.1
        }),
    decreases instr,
{
    let ghost before = edge_models(edges@);
    assert(before =~= before + Seq::<(usize, Seq<Value>)>::empty());
    match instr {
        IRInst::AssignVariable { variable, value } => {
            let state: Value = evaluate(value, widths, known);
            known.insert(*variable, state);
        },
        IRInst::LoadVariable { variable, .. } => {
            known.insert(*variable, Value::Dynamic);
        },
        IRInst::Assign { dest: IRExpr::Variable(variable), src } => {
            let state: Value = evaluate(src, widths, known);
            known.insert(*variable, state);
        },
        IRInst::If { then_branch, else_branch, .. } => {
            let mut first: Table<VariableId, Value> = copy_known(known);
            analyze_list(then_branch, &mut first, widths, edges);
            let mut second: Table<VariableId, Value> = copy_known(known);
            analyze_list(else_branch, &mut second, widths, edges);
            proof {
                let made = analyzed(instr.model(), widths.model(), known@);
                assert(edge_models(edges@) =~= before + made.1);
            }
        },
        IRInst::CallSynthetic { function, arguments } => {
            let values: Vec<Value> = evaluate_all(arguments, widths, known);
            let ghost list = values@;
            edges.push((function.id, values));
            assert(edge_models(edges@) =~= before + seq![(function.id, list)]);
        },
        _ => {},
    }
}

fn analyze_list(
    list: &Vec<IRInst>,
    known: &mut Table<VariableId, Value>,
    widths: &Widths,
    edges: &mut Vec<(usize, Vec<Value>)>,
)
    ensures
        ({
            let made = analyzed_list(models(list@), widths.model(), old(known)@);
            &&& final(known)@ == made.0
            &&& edge_models(final(edges)@) == edge_models(old(edges)@) + made.1
        }),
    decreases list,
{
    let ghost all = models(list@);
    let ghost start = known@;
    let ghost before = edge_models(edges@);
    assert(all.subrange(0, 0) =~= Seq::empty());
    assert(before =~= before + Seq::<(usize, Seq<Value>)>::empty());
    let mut i: usize = 0;
    while i < list.len()
        invariant
            i <= list@.len(),
            all == models(list@),
            ({
                let made = analyzed_list(all.subrange(0, i as int), widths.model(), start);
                &&& known@ == made.0
                &&& edge_models(edges@) == before + made.1
            }),
        decreases list@.len() - i,
    {
        let ghost prefix = all.subrange(0, i + 1);
        assert(prefix.drop_last() =~= all.subrange(0, i as int));
        assert(decreases_to!(list => list@[i as int]));
        analyze(&list[i], known, widths, edges);
        proof {
            let made = analyzed_list(prefix, widths.model(), start);
            assert(edge_models(edges@) =~= before + made.1);
        }
        i = i + 1;
    }
    assert(all.subrange(0, i as int) =~= all);
}

fn analyze_body(
    list: &Vec<(usize, IRInst)>,
    known: &mut Table<VariableId, Value>,
    widths: &Widths,
    edges: &mut Vec<(usize, Vec<Value>)>,
)
    ensures
        ({
            let made = analyzed_body(body_models(list@), widths.model(), old(known)@);
            &&& final(known)@ == made.0
            &&& edge_models(final(edges)@) == edge_models(old(edges)@) + made.1
        }),
{
    let ghost all = body_models(list@);
    let ghost start = known@;
    let ghost before = edge_models(edges@);
    assert(all.subrange(0, 0) =~= Seq::empty());
    assert(before =~= before + Seq::<(usize, Seq<Value>)>::empty());
    let mut i: usize = 0;
    while i < list.len()
        invariant
            i <= list@.len(),
            all == body_models(list@),
            ({
                let made = analyzed_body(all.subrange(0, i as int), widths.model(), start);
                &&& known@ == made.0
                &&& edge_models(edges@) == before + made.1
            }),
        decreases list@.len() - i,
    {
        let ghost prefix = all.subrange(0, i + 1);
        assert(prefix.drop_last() =~= all.subrange(0, i as int));
        analyze(&list[i].1, known, widths, edges);
        proof {
            let made = analyzed_body(prefix, widths.model(), start);
            assert(edge_models(edges@) =~= before + made.1);
        }
        i = i + 1;
    }
    assert(all.subrange(0, i as int) =~= all);
}

// ---------------------------------------------------------------------------
// Propagation

/// How far the propagation has come: what has reached each parameter, which
/// functions are reached, and which are to be looked at again.
pub struct Progress {
    pub incoming: Seq<Seq<Value>>,
    pub reached: Seq<bool>,
    pub pending: Seq<usize>,
}

pub open spec fn shorter(a: nat, b: nat) -> int {
    if a <= b {
        a as int
    } else {
        b as int
    }
}

/// The values of parameters with the arguments of a call joined in.
pub open spec fn joined_all(values: Seq<Value>, arguments: Seq<Value>) -> Seq<Value> {
    Seq::new(
        values.len(),
        |i: int|
            if i < arguments.len() {
                values[i].joined(arguments[i])
            } else {
                values[i]
            },
    )
}

/// The progress after one call.
pub open spec fn after_edge(progress: Progress, target: usize, arguments: Seq<Value>) -> Progress {
    let id = target as int;
    if target >= progress.incoming.len() {
        progress
    } else {
        let values = joined_all(progress.incoming[id], arguments);
        let changed = !progress.reached[id] || values != progress.incoming[id];
        Progress {
            incoming: progress.incoming.update(id, values),
            reached: progress.reached.update(id, true),
            pending: if changed {
                progress.pending.push(target)
            } else {
                progress.pending
            },
        }
    }
}

pub open spec fn after_edges(progress: Progress, edges: Seq<(usize, Seq<Value>)>) -> Progress
    decreases edges.len(),
{
    if edges.len() == 0 {
        progress
    } else {
        after_edge(
            after_edges(progress, edges.drop_last()),
            edges.last().0,
            edges.last().1,
        )
    }
}

/// The variables that hold parameters, with what has reached them.
pub open spec fn bound(parameters: Seq<Parameter>, values: Seq<Value>, count: int) -> Map<
    VariableId,
    Value,
>
    decreases count,
{
    if count <= 0 {
        Map::empty()
    } else {
        let before = bound(parameters, values, count - 1);
        match parameters[count - 1] {
            Parameter::Slot { variable, .. } | Parameter::Value { variable, .. } => before.insert(
                variable,
                values[count - 1],
            ),
            _ => before,
        }
    }
}

/// The progress after the last pending function has been looked at.
pub open spec fn after_visit(
    functions: Seq<FunctionModel>,
    data: Seq<DataModel>,
    progress: Progress,
) -> Progress {
    if progress.pending.len() == 0 {
        progress
    } else {
        let id = progress.pending.last() as int;
        let rest = Progress { pending: progress.pending.drop_last(), ..progress };
        let values = progress.incoming[id];
        let known = bound(
            functions[id].parameters,
            values,
            shorter(functions[id].parameters.len(), values.len()),
        );
        after_edges(
            rest,
            analyzed_body(functions[id].body, widths_in(functions[id], data), known).1,
        )
    }
}

/// The progress at the start: the parameters of the entry vary.
pub open spec fn first_progress(functions: Seq<FunctionModel>, entry: usize) -> Progress {
    Progress {
        incoming: Seq::new(
            functions.len(),
            |i: int|
                Seq::new(
                    functions[i].parameters.len(),
                    |k: int|
                        if i == entry {
                            Value::Dynamic
                        } else {
                            Value::Unseen
                        },
                ),
        ),
        reached: Seq::new(functions.len(), |i: int| i == entry),
        pending: seq![entry],
    }
}

/// The progress after a number of visits.
pub open spec fn progress_after(
    functions: Seq<FunctionModel>,
    data: Seq<DataModel>,
    entry: usize,
    visits: nat,
) -> Progress
    decreases visits,
{
    if visits == 0 {
        first_progress(functions, entry)
    } else {
        after_visit(
            functions,
            data,
            progress_after(functions, data, entry, (visits - 1) as nat),
        )
    }
}

pub open spec fn is_propagated(
    functions: Seq<FunctionModel>,
    data: Seq<DataModel>,
    entry: usize,
    progress: Progress,
) -> bool {
    &&& progress.pending.len() == 0
    &&& exists|visits: nat| #[trigger] progress_after(functions, data, entry, visits) == progress
}

/// The progress when nothing is pending any more.
pub open spec fn propagated(
    functions: Seq<FunctionModel>,
    data: Seq<DataModel>,
    entry: usize,
) -> Progress {
    choose|progress: Progress| is_propagated(functions, data, entry, progress)
}

proof fn lemma_propagation_stays(
    functions: Seq<FunctionModel>,
    data: Seq<DataModel>,
    entry: usize,
    visits: nat,
    later: nat,
)
    requires
        visits <= later,
        progress_after(functions, data, entry, visits).pending.len() == 0,
    ensures
        progress_after(functions, data, entry, later) == progress_after(
            functions,
            data,
            entry,
            visits,
        ),
    decreases later,
{
    if visits < later {
        lemma_propagation_stays(functions, data, entry, visits, (later - 1) as nat);
    }
}

/// There is only one outcome of the propagation.
pub proof fn law_propagation_is_unique(
    functions: Seq<FunctionModel>,
    data: Seq<DataModel>,
    entry: usize,
    a: Progress,
    b: Progress,
)
    requires
        is_propagated(functions, data, entry, a),
        is_propagated(functions, data, entry, b),
    ensures
        a == b,
{
    let n = choose|visits: nat| #[trigger] progress_after(functions, data, entry, visits) == a;
    let m = choose|visits: nat| #[trigger] progress_after(functions, data, entry, visits) == b;
    if n <= m {
        lemma_propagation_stays(functions, data, entry, n, m);
    } else {
        lemma_propagation_stays(functions, data, entry, m, n);
    }
}

spec fn row_headroom(values: Seq<Value>) -> nat
    decreases values.len(),
{
    if values.len() == 0 {
        0
    } else {
        row_headroom(values.drop_last()) + values.last().headroom()
    }
}

spec fn total_headroom(incoming: Seq<Seq<Value>>, reached: Seq<bool>) -> nat
    decreases incoming.len(),
{
    if incoming.len() == 0 {
        0
    } else {
        total_headroom(incoming.drop_last(), reached) + row_headroom(incoming.last())
            + if reached[incoming.len() - 1] {
            0nat
        } else {
            1nat
        }
    }
}

proof fn lemma_join_lowers(values: Seq<Value>, arguments: Seq<Value>)
    ensures
        row_headroom(joined_all(values, arguments)) <= row_headroom(values),
        joined_all(values, arguments) != values ==> row_headroom(joined_all(values, arguments))
            < row_headroom(values),
    decreases values.len(),
{
    let after = joined_all(values, arguments);
    if values.len() > 0 {
        let front = values.drop_last();
        lemma_join_lowers(front, arguments);
        assert(after.drop_last() =~= joined_all(front, arguments));
        let last = values.len() - 1;
        if last < arguments.len() {
            law_values_join(values[last], arguments[last]);
        }
        if after.last() == values.last() && after.drop_last() == front {
            assert(after =~= after.drop_last().push(after.last()));
            assert(values =~= front.push(values.last()));
        }
    } else {
        assert(after =~= values);
    }
}

proof fn lemma_headroom_update(
    incoming: Seq<Seq<Value>>,
    reached: Seq<bool>,
    id: int,
    values: Seq<Value>,
)
    requires
        0 <= id < incoming.len(),
        reached.len() == incoming.len(),
    ensures
        total_headroom(incoming.update(id, values), reached.update(id, true)) + row_headroom(
            incoming[id],
        ) + (if reached[id] {
            0nat
        } else {
            1nat
        }) == total_headroom(incoming, reached) + row_headroom(values),
    decreases incoming.len(),
{
    let after = incoming.update(id, values);
    let marks = reached.update(id, true);
    if id < incoming.len() - 1 {
        let front = incoming.drop_last();
        lemma_headroom_marks(front, reached, reached.drop_last());
        lemma_headroom_update(front, reached.drop_last(), id, values);
        assert(after.drop_last() =~= front.update(id, values));
        lemma_headroom_marks(
            front.update(id, values),
            marks,
            reached.drop_last().update(id, true),
        );
    } else {
        assert(after.drop_last() =~= incoming.drop_last());
        lemma_headroom_marks(incoming.drop_last(), reached, marks);
    }
}

proof fn lemma_headroom_marks(incoming: Seq<Seq<Value>>, a: Seq<bool>, b: Seq<bool>)
    requires
        forall|i: int| 0 <= i < incoming.len() ==> #[trigger] a[i] == b[i],
    ensures
        total_headroom(incoming, a) == total_headroom(incoming, b),
    decreases incoming.len(),
{
    if incoming.len() > 0 {
        assert(a[incoming.len() - 1] == b[incoming.len() - 1]);
        lemma_headroom_marks(incoming.drop_last(), a, b);
    }
}

/// How much can still happen: values and marks can change, and functions are pending.
spec fn work_left(progress: Progress) -> nat {
    2 * total_headroom(progress.incoming, progress.reached) + progress.pending.len()
}

proof fn lemma_edges_leave_less(progress: Progress, edges: Seq<(usize, Seq<Value>)>)
    requires
        progress.reached.len() == progress.incoming.len(),
    ensures
        ({
            let after = after_edges(progress, edges);
            &&& after.reached.len() == after.incoming.len()
            &&& work_left(after) <= work_left(progress)
        }),
    decreases edges.len(),
{
    if edges.len() > 0 {
        lemma_edges_leave_less(progress, edges.drop_last());
        let before = after_edges(progress, edges.drop_last());
        let (target, arguments) = edges.last();
        if target < before.incoming.len() {
            let row = before.incoming[target as int];
            let values = joined_all(row, arguments);
            lemma_headroom_update(before.incoming, before.reached, target as int, values);
            lemma_join_lowers(row, arguments);
        }
    }
}

proof fn lemma_propagation_goes_on(
    functions: Seq<FunctionModel>,
    data: Seq<DataModel>,
    entry: usize,
    visits: nat,
)
    requires
        ({
            let progress = progress_after(functions, data, entry, visits);
            progress.reached.len() == progress.incoming.len()
        }),
    ensures
        is_propagated(functions, data, entry, propagated(functions, data, entry)),
    decreases work_left(progress_after(functions, data, entry, visits)),
{
    let progress = progress_after(functions, data, entry, visits);
    if progress.pending.len() == 0 {
        assert(is_propagated(functions, data, entry, progress));
    } else {
        let id = progress.pending.last() as int;
        let rest = Progress { pending: progress.pending.drop_last(), ..progress };
        let values = progress.incoming[id];
        let known = bound(
            functions[id].parameters,
            values,
            shorter(functions[id].parameters.len(), values.len()),
        );
        lemma_edges_leave_less(
            rest,
            analyzed_body(functions[id].body, widths_in(functions[id], data), known).1,
        );
        assert(progress_after(functions, data, entry, visits + 1) == after_visit(
            functions,
            data,
            progress,
        ));
        lemma_propagation_goes_on(functions, data, entry, visits + 1);
    }
}

/// The propagation comes to an end.
pub proof fn law_propagation_ends(
    functions: Seq<FunctionModel>,
    data: Seq<DataModel>,
    entry: usize,
)
    ensures
        is_propagated(functions, data, entry, propagated(functions, data, entry)),
{
    lemma_propagation_goes_on(functions, data, entry, 0);
}

pub open spec fn rows(incoming: Seq<Vec<Value>>) -> Seq<Seq<Value>> {
    incoming.map_values(|row: Vec<Value>| row@)
}

struct Propagation {
    incoming: Vec<Vec<Value>>,
    reached: Vec<bool>,
    pending: Vec<usize>,
}

impl Propagation {
    spec fn model(self) -> Progress {
        Progress {
            incoming: rows(self.incoming@),
            reached: self.reached@,
            pending: self.pending@,
        }
    }

    /// The tables have a place for every function and parameter, and only
    /// functions are pending.
    spec fn fits(self, functions: Seq<FunctionModel>) -> bool {
        &&& self.incoming@.len() == functions.len()
        &&& self.reached@.len() == functions.len()
        &&& forall|i: int|
            0 <= i < functions.len() ==> (#[trigger] self.incoming@[i])@.len()
                == functions[i].parameters.len()
        &&& forall|k: int|
            0 <= k < self.pending@.len() ==> (#[trigger] self.pending@[k]) < functions.len()
    }

    spec fn measure(self) -> nat {
        work_left(self.model())
    }

    fn edge(
        &mut self,
        target: usize,
        arguments: &Vec<Value>,
        Ghost(functions): Ghost<Seq<FunctionModel>>,
    )
        requires
            old(self).fits(functions),
        ensures
            final(self).fits(functions),
            final(self).model() == after_edge(old(self).model(), target, arguments@),
            final(self).measure() <= old(self).measure(),
    {
        if target >= self.incoming.len() {
            return;
        }
        let ghost before = rows(self.incoming@);
        let ghost marks = self.reached@;
        let ghost row = self.incoming@[target as int]@;
        let total: usize = self.incoming[target].len();
        let mut changed: bool = false;
        let mut i: usize = 0;
        while i < total && i < arguments.len()
            invariant
                i <= total,
                i <= arguments@.len(),
                target < self.incoming@.len(),
                total == row.len(),
                self.incoming@.len() == before.len(),
                self.incoming@[target as int]@.len() == total,
                self.reached@ == marks,
                self.pending@ == old(self).pending@,
                before == rows(old(self).incoming@),
                row == before[target as int],
                forall|k: int|
                    0 <= k < before.len() && k != target ==> (#[trigger] self.incoming@[k])@
                        == before[k],
                forall|k: int|
                    0 <= k < i ==> (#[trigger] self.incoming@[target as int]@[k])
                        == row[k].joined(arguments@[k]),
                forall|k: int|
                    i <= k < total ==> (#[trigger] self.incoming@[target as int]@[k]) == row[k],
                changed == exists|k: int|
                    0 <= k < i && #[trigger] row[k].joined(arguments@[k]) != row[k],
            decreases total - i,
        {
            let ghost earlier = changed;
            let grown: bool = self.incoming[target][i].join(&arguments[i]);
            if grown {
                changed = true;
                assert(row[i as int].joined(arguments@[i as int]) != row[i as int]);
            }
            proof {
                if exists|k: int|
                    0 <= k < i + 1 && #[trigger] row[k].joined(arguments@[k]) != row[k] {
                    let k = choose|k: int|
                        0 <= k < i + 1 && #[trigger] row[k].joined(arguments@[k]) != row[k];
                    if k < i {
                        assert(earlier);
                    }
                }
            }
            i = i + 1;
        }
        let fresh: bool = !self.reached[target];
        self.reached.set(target, true);
        proof {
            let values = joined_all(row, arguments@);
            assert(self.incoming@[target as int]@ =~= values);
            assert(rows(self.incoming@) =~= before.update(target as int, values));
            lemma_headroom_update(before, marks, target as int, values);
            lemma_join_lowers(row, arguments@);
            if changed {
                let k = choose|k: int|
                    0 <= k < i && #[trigger] row[k].joined(arguments@[k]) != row[k];
                assert(values[k] != row[k]);
            } else {
                assert(values =~= row) by {
                    assert forall|k: int| 0 <= k < row.len() implies values[k] == row[k] by {
                        if k < i {
                            assert(row[k].joined(arguments@[k]) == row[k]);
                        }
                    }
                }
            }
        }
        if changed || fresh {
            self.pending.push(target);
        }
        assert(self.model() == after_edge(old(self).model(), target, arguments@));
    }
}

fn bind(parameters: &Vec<Parameter>, values: &Vec<Value>) -> (res: Table<VariableId, Value>)
    ensures
        res@ == bound(parameters@, values@, shorter(parameters@.len(), values@.len())),
{
    let mut res: Table<VariableId, Value> = Table::new();
    let mut i: usize = 0;
    while i < parameters.len() && i < values.len()
        invariant
            i <= parameters@.len(),
            i <= values@.len(),
            res@ == bound(parameters@, values@, i as int),
        decreases parameters@.len() - i,
    {
        match parameters[i] {
            Parameter::Slot { variable, .. } => {
                res.insert(variable, values[i].copied());
            },
            Parameter::Value { variable, .. } => {
                res.insert(variable, values[i].copied());
            },
            _ => {},
        }
        i = i + 1;
    }
    res
}

fn start(functions: &Vec<SyntheticFunction>, entry: usize) -> (res: Propagation)
    requires
        entry < functions@.len(),
    ensures
        res.fits(function_models(functions@)),
        res.model() == first_progress(function_models(functions@), entry),
{
    let ghost all = function_models(functions@);
    let mut incoming: Vec<Vec<Value>> = Vec::new();
    let mut reached: Vec<bool> = Vec::new();
    let mut i: usize = 0;
    while i < functions.len()
        invariant
            i <= functions@.len(),
            all == function_models(functions@),
            incoming@.len() == i,
            reached@.len() == i,
            forall|k: int| 0 <= k < i ==> (#[trigger] reached@[k]) == (k == entry),
            forall|k: int|
                0 <= k < i ==> (#[trigger] incoming@[k])@ == Seq::new(
                    all[k].parameters.len(),
                    |j: int|
                        if k == entry {
                            Value::Dynamic
                        } else {
                            Value::Unseen
                        },
                ),
        decreases functions@.len() - i,
    {
        let mut row: Vec<Value> = Vec::new();
        let total: usize = functions[i].parameters.len();
        let mut j: usize = 0;
        while j < total
            invariant
                j <= total,
                row@.len() == j,
                forall|k: int|
                    0 <= k < j ==> (#[trigger] row@[k]) == (if i == entry {
                        Value::Dynamic
                    } else {
                        Value::Unseen
                    }),
            decreases total - j,
        {
            row.push(
                if i == entry {
                    Value::Dynamic
                } else {
                    Value::Unseen
                },
            );
            j = j + 1;
        }
        assert(all[i as int] == functions@[i as int].model());
        assert(row@ =~= Seq::new(
            all[i as int].parameters.len(),
            |j: int|
                if i == entry {
                    Value::Dynamic
                } else {
                    Value::Unseen
                },
        ));
        incoming.push(row);
        reached.push(i == entry);
        i = i + 1;
    }
    let mut pending: Vec<usize> = Vec::new();
    pending.push(entry);
    let res = Propagation { incoming, reached, pending };
    proof {
        let first = first_progress(all, entry);
        assert(res.model().incoming =~= first.incoming);
        assert(res.model().reached =~= first.reached);
        assert(res.model().pending =~= first.pending);
    }
    res
}

fn visit(
    propagation: &mut Propagation,
    functions: &Vec<SyntheticFunction>,
    data: &Vec<DataVariable>,
)
    requires
        old(propagation).fits(function_models(functions@)),
        old(propagation).pending@.len() > 0,
    ensures
        final(propagation).fits(function_models(functions@)),
        final(propagation).model() == after_visit(
            function_models(functions@),
            data_models(data@),
            old(propagation).model(),
        ),
        final(propagation).measure() < old(propagation).measure(),
{
    let ghost all = function_models(functions@);
    let ghost before = propagation.model();
    let ghost measure = propagation.measure();
    let id: usize = match propagation.pending.pop() {
        Some(id) => id,
        None => return,
    };
    assert(id == before.pending.last());
    assert(propagation.pending@ =~= before.pending.drop_last());
    assert(all[id as int] == functions@[id as int].model());
    assert(before.incoming[id as int] == propagation.incoming@[id as int]@);
    let widths: Widths = collect_widths(&functions[id], data);
    let mut known: Table<VariableId, Value> = bind(
        &functions[id].parameters,
        &propagation.incoming[id],
    );
    let mut edges: Vec<(usize, Vec<Value>)> = Vec::new();
    assert(edge_models(edges@) =~= Seq::<(usize, Seq<Value>)>::empty());
    analyze_body(&functions[id].body, &mut known, &widths, &mut edges);
    let ghost list = edge_models(edges@);
    let ghost rest = propagation.model();
    assert(list.subrange(0, 0) =~= Seq::empty());
    proof {
        let values = before.incoming[id as int];
        let made = analyzed_body(
            all[id as int].body,
            widths_in(all[id as int], data_models(data@)),
            bound(
                all[id as int].parameters,
                values,
                shorter(all[id as int].parameters.len(), values.len()),
            ),
        );
        assert(list =~= made.1);
    }
    let mut i: usize = 0;
    while i < edges.len()
        invariant
            i <= edges@.len(),
            list == edge_models(edges@),
            propagation.fits(all),
            propagation.measure() < measure,
            propagation.model() == after_edges(rest, list.subrange(0, i as int)),
        decreases edges@.len() - i,
    {
        let ghost prefix = list.subrange(0, i + 1);
        assert(prefix.drop_last() =~= list.subrange(0, i as int));
        propagation.edge(edges[i].0, &edges[i].1, Ghost(all));
        i = i + 1;
    }
    assert(list.subrange(0, i as int) =~= list);
}

fn propagate(
    functions: &Vec<SyntheticFunction>,
    data: &Vec<DataVariable>,
    entry: usize,
) -> (res: Propagation)
    requires
        entry < functions@.len(),
    ensures
        res.fits(function_models(functions@)),
        res.model() == propagated(function_models(functions@), data_models(data@), entry),
{
    let ghost all = function_models(functions@);
    let ghost items = data_models(data@);
    let mut res: Propagation = start(functions, entry);
    let ghost mut visits: nat = 0;
    while res.pending.len() > 0
        invariant
            all == function_models(functions@),
            items == data_models(data@),
            res.fits(all),
            res.model() == progress_after(all, items, entry, visits),
        decreases res.measure(),
    {
        visit(&mut res, functions, data);
        proof {
            visits = visits + 1;
        }
    }
    proof {
        assert(is_propagated(all, items, entry, res.model()));
        law_propagation_is_unique(all, items, entry, res.model(), propagated(all, items, entry));
    }
    res
}

// ---------------------------------------------------------------------------
// Rewriting

/// The arguments that are still passed, folded.
pub open spec fn kept_arguments(
    arguments: Seq<IRExpr>,
    values: Seq<Value>,
    widths: WidthsModel,
    known: Map<VariableId, Value>,
    count: int,
) -> Seq<IRExpr>
    decreases count,
{
    if count <= 0 {
        Seq::empty()
    } else {
        let before = kept_arguments(arguments, values, widths, known, count - 1);
        if count - 1 < values.len() && values[count - 1] is Constant {
            before
        } else {
            before.push(folded(arguments[count - 1], widths, known))
        }
    }
}

/// What an instruction becomes, if anything, and what is known after it.
/// Assignments of constants disappear: the constants stand where the variables
/// were used.
pub open spec fn rewritten(
    instr: InstModel,
    widths: WidthsModel,
    incoming: Seq<Seq<Value>>,
    known: Map<VariableId, Value>,
) -> (Option<InstModel>, Map<VariableId, Value>)
    decreases instr,
{
    match instr {
        InstModel::AssignVariable { variable, value } => rewritten_assignment(
            variable,
            value,
            widths,
            known,
        ),
        InstModel::Assign { dest, src } => match dest {
            IRExpr::Variable(variable) => rewritten_assignment(variable, src, widths, known),
            _ => (
                Some(
                    InstModel::Assign {
                        dest: folded(dest, widths, known),
                        src: folded(src, widths, known),
                    },
                ),
                known,
            ),
        },
        InstModel::LoadVariable { variable, address } => (
            Some(
                InstModel::LoadVariable { variable, address: folded(address, widths, known) },
            ),
            known.insert(variable, Value::Dynamic),
        ),
        InstModel::StoreVariable { address, variable } => (
            Some(
                match folded(IRExpr::Variable(variable), widths, known) {
                    IRExpr::Variable(variable) => InstModel::StoreVariable {
                        address: folded(address, widths, known),
                        variable,
                    },
                    src => InstModel::Assign {
                        dest: IRExpr::Deref(Box::new(folded(address, widths, known))),
                        src,
                    },
                },
            ),
            known,
        ),
        InstModel::If { condition, then_branch, else_branch } => (
            Some(
                InstModel::If {
                    condition: folded(condition, widths, known),
                    then_branch: rewritten_list(then_branch, widths, incoming, known).0,
                    else_branch: rewritten_list(else_branch, widths, incoming, known).0,
                },
            ),
            known,
        ),
        InstModel::CallSynthetic { function, arguments } => (
            Some(
                InstModel::CallSynthetic {
                    function,
                    arguments: kept_arguments(
                        arguments,
                        if function.id < incoming.len() {
                            incoming[function.id as int]
                        } else {
                            Seq::empty()
                        },
                        widths,
                        known,
                        arguments.len() as int,
                    ),
                },
            ),
            known,
        ),
        InstModel::Return(Some(value)) => (
            Some(InstModel::Return(Some(folded(value, widths, known)))),
            known,
        ),
        InstModel::Jump(value) => (Some(InstModel::Jump(folded(value, widths, known))), known),
        _ => (Some(instr), known),
    }
}

pub open spec fn rewritten_assignment(
    variable: VariableId,
    value: IRExpr,
    widths: WidthsModel,
    known: Map<VariableId, Value>,
) -> (Option<InstModel>, Map<VariableId, Value>) {
    let value = folded(value, widths, known);
    let state = evaluated(value, widths, known);
    (
        if state is Constant {
            None
        } else {
            Some(InstModel::AssignVariable { variable, value })
        },
        known.insert(variable, state),
    )
}

pub open spec fn rewritten_list(
    list: Seq<InstModel>,
    widths: WidthsModel,
    incoming: Seq<Seq<Value>>,
    known: Map<VariableId, Value>,
) -> (Seq<InstModel>, Map<VariableId, Value>)
    decreases list,
{
    if list.len() == 0 {
        (Seq::empty(), known)
    } else {
        let before = rewritten_list(list.drop_last(), widths, incoming, known);
        let last = rewritten(list[list.len() - 1], widths, incoming, before.1);
        (
            match last.0 {
                Some(instr) => before.0.push(instr),
                None => before.0,
            },
            last.1,
        )
    }
}

pub open spec fn rewritten_body(
    list: Seq<(usize, InstModel)>,
    widths: WidthsModel,
    incoming: Seq<Seq<Value>>,
    known: Map<VariableId, Value>,
) -> (Seq<(usize, InstModel)>, Map<VariableId, Value>)
    decreases list.len(),
{
    if list.len() == 0 {
        (Seq::empty(), known)
    } else {
        let before = rewritten_body(list.drop_last(), widths, incoming, known);
        let last = rewritten(list.last().1, widths, incoming, before.1);
        (
            match last.0 {
                Some(instr) => before.0.push((list.last().0, instr)),
                None => before.0,
            },
            last.1,
        )
    }
}

fn keep_arguments(
    arguments: &Vec<IRExpr>,
    values: &Vec<Value>,
    widths: &Widths,
    known: &Table<VariableId, Value>,
) -> (res: Vec<IRExpr>)
    ensures
        res@ == kept_arguments(
            arguments@,
            values@,
            widths.model(),
            known@,
            arguments@.len() as int,
        ),
{
    let mut res: Vec<IRExpr> = Vec::new();
    let mut i: usize = 0;
    while i < arguments.len()
        invariant
            i <= arguments@.len(),
            res@ == kept_arguments(arguments@, values@, widths.model(), known@, i as int),
        decreases arguments@.len() - i,
    {
        let removed: bool = i < values.len() && matches!(values[i], Value::Constant(_));
        if !removed {
            res.push(fold(&arguments[i], widths, known));
        }
        i = i + 1;
    }
    res
}

fn rewrite_assignment(
    variable: VariableId,
    value: &IRExpr,
    widths: &Widths,
    known: &mut Table<VariableId, Value>,
) -> (res: Option<IRInst>)
    ensures
        ({
            let made = rewritten_assignment(variable, *value, widths.model(), old(known)@);
            &&& final(known)@ == made.1
            &&& match res {
                Some(instr) => made.0 == Some(instr.model()),
                None => made.0 is None,
            }
        }),
{
    let value: IRExpr = fold(value, widths, known);
    let state: Value = evaluate(&value, widths, known);
    let constant: bool = matches!(state, Value::Constant(_));
    known.insert(variable, state);
    if constant {
        None
    } else {
        Some(IRInst::AssignVariable { variable, value })
    }
}

#[verifier::rlimit(30)]
fn rewrite(
    instr: &IRInst,
    known: &mut Table<VariableId, Value>,
    widths: &Widths,
    incoming: &Vec<Vec<Value>>,
) -> (res: Option<IRInst>)
    ensures
        ({
            let made = rewritten(instr.model(), widths.model(), rows(incoming@), old(known)@);
            &&& final(known)@ == made.1
            &&& match res {
                Some(instr) => made.0 == Some(instr.model()),
                None => made.0 is None,
            }
        }),
    decreases instr,
{
    match instr {
        IRInst::AssignVariable { variable, value } => rewrite_assignment(
            *variable,
            value,
            widths,
            known,
        ),
        IRInst::Assign { dest, src } => match dest {
            IRExpr::Variable(variable) => rewrite_assignment(*variable, src, widths, known),
            _ => Some(
                IRInst::Assign {
                    dest: fold(dest, widths, known),
                    src: fold(src, widths, known),
                },
            ),
        },
        IRInst::LoadVariable { variable, address } => {
            let address: IRExpr = fold(address, widths, known);
            known.insert(*variable, Value::Dynamic);
            Some(IRInst::LoadVariable { variable: *variable, address })
        },
        IRInst::StoreVariable { address, variable } => {
            let address: IRExpr = fold(address, widths, known);
            match fold(&IRExpr::Variable(*variable), widths, known) {
                IRExpr::Variable(variable) => Some(IRInst::StoreVariable { address, variable }),
                src => Some(IRInst::Assign { dest: IRExpr::Deref(Box::new(address)), src }),
            }
        },
        IRInst::If { condition, then_branch, else_branch } => {
            let condition: IRExpr = fold(condition, widths, known);
            let mut first: Table<VariableId, Value> = copy_known(known);
            let then_branch: Vec<IRInst> = rewrite_list(then_branch, &mut first, widths, incoming);
            let mut second: Table<VariableId, Value> = copy_known(known);
            let else_branch: Vec<IRInst> = rewrite_list(
                else_branch,
                &mut second,
                widths,
                incoming,
            );
            Some(IRInst::If { condition, then_branch, else_branch })
        },
        IRInst::CallSynthetic { function, arguments } => {
            let none: Vec<Value> = Vec::new();
            assert(none@ =~= Seq::<Value>::empty());
            let arguments: Vec<IRExpr> = keep_arguments(
                arguments,
                if function.id < incoming.len() {
                    &incoming[function.id]
                } else {
                    &none
                },
                widths,
                known,
            );
            Some(IRInst::CallSynthetic { function: *function, arguments })
        },
        IRInst::Return(Some(value)) => Some(IRInst::Return(Some(fold(value, widths, known)))),
        IRInst::Jump(value) => Some(IRInst::Jump(fold(value, widths, known))),
        other => Some(other.clone()),
    }
}

fn rewrite_list(
    list: &Vec<IRInst>,
    known: &mut Table<VariableId, Value>,
    widths: &Widths,
    incoming: &Vec<Vec<Value>>,
) -> (res: Vec<IRInst>)
    ensures
        (models(res@), final(known)@) == rewritten_list(
            models(list@),
            widths.model(),
            rows(incoming@),
            old(known)@,
        ),
    decreases list,
{
    let ghost all = models(list@);
    let ghost start = known@;
    let mut res: Vec<IRInst> = Vec::new();
    assert(all.subrange(0, 0) =~= Seq::empty());
    assert(models(res@) =~= Seq::<InstModel>::empty());
    let mut i: usize = 0;
    while i < list.len()
        invariant
            i <= list@.len(),
            all == models(list@),
            (models(res@), known@) == rewritten_list(
                all.subrange(0, i as int),
                widths.model(),
                rows(incoming@),
                start,
            ),
        decreases list@.len() - i,
    {
        let ghost prefix = all.subrange(0, i + 1);
        assert(prefix.drop_last() =~= all.subrange(0, i as int));
        assert(decreases_to!(list => list@[i as int]));
        let ghost before = models(res@);
        if let Some(instr) = rewrite(&list[i], known, widths, incoming) {
            let ghost model = instr.model();
            res.push(instr);
            assert(models(res@) =~= before.push(model));
        }
        i = i + 1;
    }
    assert(all.subrange(0, i as int) =~= all);
    res
}

fn rewrite_body(
    list: &Vec<(usize, IRInst)>,
    known: &mut Table<VariableId, Value>,
    widths: &Widths,
    incoming: &Vec<Vec<Value>>,
) -> (res: Vec<(usize, IRInst)>)
    ensures
        (body_models(res@), final(known)@) == rewritten_body(
            body_models(list@),
            widths.model(),
            rows(incoming@),
            old(known)@,
        ),
{
    let ghost all = body_models(list@);
    let ghost start = known@;
    let mut res: Vec<(usize, IRInst)> = Vec::new();
    assert(all.subrange(0, 0) =~= Seq::empty());
    assert(body_models(res@) =~= Seq::<(usize, InstModel)>::empty());
    let mut i: usize = 0;
    while i < list.len()
        invariant
            i <= list@.len(),
            all == body_models(list@),
            (body_models(res@), known@) == rewritten_body(
                all.subrange(0, i as int),
                widths.model(),
                rows(incoming@),
                start,
            ),
        decreases list@.len() - i,
    {
        let ghost prefix = all.subrange(0, i + 1);
        assert(prefix.drop_last() =~= all.subrange(0, i as int));
        let ghost before = body_models(res@);
        let offset: usize = list[i].0;
        if let Some(instr) = rewrite(&list[i].1, known, widths, incoming) {
            let ghost model = instr.model();
            res.push((offset, instr));
            assert(body_models(res@) =~= before.push((offset, model)));
        }
        i = i + 1;
    }
    assert(all.subrange(0, i as int) =~= all);
    res
}

/// The variables with those of an expression.
pub open spec fn variables_with(expr: IRExpr, used: Set<VariableId>) -> Set<VariableId>
    decreases expr,
{
    match expr {
        IRExpr::BinOp { lhs, rhs, .. } => variables_with(*rhs, variables_with(*lhs, used)),
        IRExpr::Deref(address) => variables_with(*address, used),
        IRExpr::CastUnknownPtr { address, .. } => variables_with(*address, used),
        IRExpr::Convert { value, .. } => variables_with(*value, used),
        IRExpr::Variable(variable) => used.insert(variable),
        IRExpr::Not(inner) => variables_with(*inner, used),
        _ => used,
    }
}

fn expression_variables(expr: &IRExpr, used: &mut KeySet<VariableId>)
    ensures
        final(used)@ == variables_with(*expr, old(used)@),
    decreases expr,
{
    match expr {
        IRExpr::BinOp { lhs, rhs, .. } => {
            expression_variables(lhs, used);
            expression_variables(rhs, used);
        },
        IRExpr::Deref(address) => {
            expression_variables(address, used);
        },
        IRExpr::CastUnknownPtr { address, .. } => {
            expression_variables(address, used);
        },
        IRExpr::Convert { value, .. } => {
            expression_variables(value, used);
        },
        IRExpr::Variable(variable) => {
            used.insert(*variable);
        },
        IRExpr::Not(inner) => {
            expression_variables(inner, used);
        },
        _ => {},
    }
}

pub open spec fn variables_with_all(list: Seq<IRExpr>, used: Set<VariableId>) -> Set<VariableId>
    decreases list.len(),
{
    if list.len() == 0 {
        used
    } else {
        variables_with(list.last(), variables_with_all(list.drop_last(), used))
    }
}

fn expression_variables_all(list: &Vec<IRExpr>, used: &mut KeySet<VariableId>)
    ensures
        final(used)@ == variables_with_all(list@, old(used)@),
{
    let ghost start = used@;
    assert(list@.subrange(0, 0) =~= Seq::empty());
    let mut i: usize = 0;
    while i < list.len()
        invariant
            i <= list@.len(),
            used@ == variables_with_all(list@.subrange(0, i as int), start),
        decreases list@.len() - i,
    {
        let ghost prefix = list@.subrange(0, i + 1);
        assert(prefix.drop_last() =~= list@.subrange(0, i as int));
        expression_variables(&list[i], used);
        i = i + 1;
    }
    assert(list@.subrange(0, i as int) =~= list@);
}

/// The variables with those that an instruction uses.
pub open spec fn used_with(instr: InstModel, used: Set<VariableId>) -> Set<VariableId>
    decreases instr,
{
    match instr {
        InstModel::Assign { dest, src } => variables_with(src, variables_with(dest, used)),
        InstModel::Return(value) => match value {
            Some(value) => variables_with(value, used),
            None => used,
        },
        InstModel::AssignVariable { variable, value } => variables_with(
            value,
            used.insert(variable),
        ),
        InstModel::LoadVariable { variable, address } => variables_with(
            address,
            used.insert(variable),
        ),
        InstModel::StoreVariable { address, variable } => variables_with(
            address,
            used.insert(variable),
        ),
        InstModel::If { condition, then_branch, else_branch } => used_with_list(
            else_branch,
            used_with_list(then_branch, variables_with(condition, used)),
        ),
        InstModel::CallSynthetic { arguments, .. } => variables_with_all(arguments, used),
        InstModel::Jump(target) => variables_with(target, used),
        _ => used,
    }
}

pub open spec fn used_with_list(list: Seq<InstModel>, used: Set<VariableId>) -> Set<VariableId>
    decreases list,
{
    if list.len() == 0 {
        used
    } else {
        used_with(list[list.len() - 1], used_with_list(list.drop_last(), used))
    }
}

pub open spec fn used_with_body(
    list: Seq<(usize, InstModel)>,
    used: Set<VariableId>,
) -> Set<VariableId>
    decreases list,
{
    if list.len() == 0 {
        used
    } else {
        used_with(list[list.len() - 1].1, used_with_body(list.drop_last(), used))
    }
}

fn used_variables(instr: &IRInst, used: &mut KeySet<VariableId>)
    ensures
        final(used)@ == used_with(instr.model(), old(used)@),
    decreases instr,
{
    match instr {
        IRInst::Assign { dest, src } => {
            expression_variables(dest, used);
            expression_variables(src, used);
        },
        IRInst::Return(value) => {
            if let Some(value) = value {
                expression_variables(value, used);
            }
        },
        IRInst::AssignVariable { variable, value } => {
            used.insert(*variable);
            expression_variables(value, used);
        },
        IRInst::LoadVariable { variable, address } => {
            used.insert(*variable);
            expression_variables(address, used);
        },
        IRInst::StoreVariable { address, variable } => {
            used.insert(*variable);
            expression_variables(address, used);
        },
        IRInst::If { condition, then_branch, else_branch } => {
            expression_variables(condition, used);
            used_variables_list(then_branch, used);
            used_variables_list(else_branch, used);
        },
        IRInst::CallSynthetic { arguments, .. } => {
            expression_variables_all(arguments, used);
        },
        IRInst::Jump(target) => {
            expression_variables(target, used);
        },
        _ => {},
    }
}

fn used_variables_list(list: &Vec<IRInst>, used: &mut KeySet<VariableId>)
    ensures
        final(used)@ == used_with_list(models(list@), old(used)@),
    decreases list,
{
    let ghost all = models(list@);
    let ghost start = used@;
    assert(all.subrange(0, 0) =~= Seq::empty());
    let mut i: usize = 0;
    while i < list.len()
        invariant
            i <= list@.len(),
            all == models(list@),
            used@ == used_with_list(all.subrange(0, i as int), start),
        decreases list@.len() - i,
    {
        let ghost prefix = all.subrange(0, i + 1);
        assert(prefix.drop_last() =~= all.subrange(0, i as int));
        assert(decreases_to!(list => list@[i as int]));
        used_variables(&list[i], used);
        i = i + 1;
    }
    assert(all.subrange(0, i as int) =~= all);
}

fn used_variables_body(list: &Vec<(usize, IRInst)>, used: &mut KeySet<VariableId>)
    ensures
        final(used)@ == used_with_body(body_models(list@), old(used)@),
    decreases list,
{
    let ghost all = body_models(list@);
    let ghost start = used@;
    assert(all.subrange(0, 0) =~= Seq::empty());
    let mut i: usize = 0;
    while i < list.len()
        invariant
            i <= list@.len(),
            all == body_models(list@),
            used@ == used_with_body(all.subrange(0, i as int), start),
        decreases list@.len() - i,
    {
        let ghost prefix = all.subrange(0, i + 1);
        assert(prefix.drop_last() =~= all.subrange(0, i as int));
        assert(decreases_to!(list => list@[i as int]));
        used_variables(&list[i].1, used);
        i = i + 1;
    }
    assert(all.subrange(0, i as int) =~= all);
}


/// A body without the declarations of variables that are not used. Constant
/// definitions were put where they are used, and their declarations must not
/// become phantom slots of higher tiers.
pub open spec fn declared_used(body: Seq<(usize, InstModel)>, used: Set<VariableId>) -> Seq<
    (usize, InstModel),
>
    decreases body.len(),
{
    if body.len() == 0 {
        Seq::empty()
    } else {
        let before = declared_used(body.drop_last(), used);
        match body.last().1 {
            InstModel::DeclareVariable { variable, .. } => if used.contains(variable) {
                before.push(body.last())
            } else {
                before
            },
            _ => before.push(body.last()),
        }
    }
}

/// The parameters that still vary.
pub open spec fn kept_parameters(parameters: Seq<Parameter>, values: Seq<Value>, count: int) -> Seq<
    Parameter,
>
    decreases count,
{
    if count <= 0 {
        Seq::empty()
    } else {
        let before = kept_parameters(parameters, values, count - 1);
        if count - 1 < values.len() && values[count - 1] is Constant {
            before
        } else {
            before.push(parameters[count - 1])
        }
    }
}

/// A function with its constants folded.
pub open spec fn function_folded(
    function: FunctionModel,
    data: Seq<DataModel>,
    incoming: Seq<Seq<Value>>,
    values: Seq<Value>,
) -> FunctionModel {
    let known = bound(
        function.parameters,
        values,
        shorter(function.parameters.len(), values.len()),
    );
    let body = rewritten_body(function.body, widths_in(function, data), incoming, known).0;
    FunctionModel {
        parameters: kept_parameters(
            function.parameters,
            values,
            function.parameters.len() as int,
        ),
        body: declared_used(body, used_with_body(body, Set::empty())),
        ..function
    }
}

/// A program with the constants of every function that is reached folded.
pub open spec fn program_folded(program: ProgramModel) -> ProgramModel {
    match program.entry {
        None => program,
        Some(entry) => if entry.id >= program.functions.len() {
            program
        } else {
            let progress = propagated(program.functions, program.data, entry.id);
            ProgramModel {
                functions: Seq::new(
                    program.functions.len(),
                    |i: int|
                        if progress.reached[i] {
                            function_folded(
                                program.functions[i],
                                program.data,
                                progress.incoming,
                                progress.incoming[i],
                            )
                        } else {
                            program.functions[i]
                        },
                ),
                ..program
            }
        },
    }
}

fn keep_declared(body: &Vec<(usize, IRInst)>, used: &KeySet<VariableId>) -> (res: Vec<
    (usize, IRInst),
>)
    ensures
        body_models(res@) == declared_used(body_models(body@), used@),
{
    let ghost all = body_models(body@);
    let mut res: Vec<(usize, IRInst)> = Vec::new();
    assert(all.subrange(0, 0) =~= Seq::empty());
    assert(body_models(res@) =~= Seq::<(usize, InstModel)>::empty());
    let mut i: usize = 0;
    while i < body.len()
        invariant
            i <= body@.len(),
            all == body_models(body@),
            body_models(res@) == declared_used(all.subrange(0, i as int), used@),
        decreases body@.len() - i,
    {
        let ghost prefix = all.subrange(0, i + 1);
        assert(prefix.drop_last() =~= all.subrange(0, i as int));
        let ghost before = body_models(res@);
        let unused: bool = match &body[i].1 {
            IRInst::DeclareVariable { variable, .. } => !used.contains(*variable),
            _ => false,
        };
        if !unused {
            res.push((body[i].0, body[i].1.clone()));
            assert(body_models(res@) =~= before.push(all[i as int]));
        }
        i = i + 1;
    }
    assert(all.subrange(0, i as int) =~= all);
    res
}

fn keep_parameters(parameters: &Vec<Parameter>, values: &Vec<Value>) -> (res: Vec<Parameter>)
    ensures
        res@ == kept_parameters(parameters@, values@, parameters@.len() as int),
{
    let mut res: Vec<Parameter> = Vec::new();
    let mut i: usize = 0;
    while i < parameters.len()
        invariant
            i <= parameters@.len(),
            res@ == kept_parameters(parameters@, values@, i as int),
        decreases parameters@.len() - i,
    {
        let removed: bool = i < values.len() && matches!(values[i], Value::Constant(_));
        if !removed {
            res.push(parameters[i]);
        }
        i = i + 1;
    }
    res
}

fn fold_function(
    function: &SyntheticFunction,
    data: &Vec<DataVariable>,
    incoming: &Vec<Vec<Value>>,
    id: usize,
) -> (res: SyntheticFunction)
    requires
        id < incoming@.len(),
    ensures
        res.model() == function_folded(
            function.model(),
            data_models(data@),
            rows(incoming@),
            rows(incoming@)[id as int],
        ),
{
    assert(rows(incoming@)[id as int] == incoming@[id as int]@);
    let widths: Widths = collect_widths(function, data);
    let mut known: Table<VariableId, Value> = bind(&function.parameters, &incoming[id]);
    let body: Vec<(usize, IRInst)> = rewrite_body(&function.body, &mut known, &widths, incoming);
    let mut used: KeySet<VariableId> = KeySet::new();
    used_variables_body(&body, &mut used);
    SyntheticFunction {
        entry_offset: function.entry_offset,
        parameters: keep_parameters(&function.parameters, &incoming[id]),
        body: keep_declared(&body, &used),
    }
}

/// Folds the constants of every function that is reached from the entry.
pub fn run(program: &mut Program)
    ensures
        final(program).model() == program_folded(old(program).model()),
{
    let entry: usize = match program.entry {
        Some(entry) => if entry.id < program.functions.len() {
            entry.id
        } else {
            return
        },
        None => return,
    };
    let ghost all = function_models(program.functions@);
    let ghost items = data_models(program.data@);
    let propagation: Propagation = propagate(&program.functions, &program.data, entry);
    let ghost progress = propagation.model();
    let total: usize = program.functions.len();
    let mut functions: Vec<SyntheticFunction> = Vec::new();
    let mut i: usize = 0;
    while i < total
        invariant
            i <= total,
            total == program.functions@.len(),
            all == function_models(program.functions@),
            items == data_models(program.data@),
            *program == *old(program),
            propagation.fits(all),
            progress == propagation.model(),
            functions@.len() == i,
            forall|k: int|
                0 <= k < i ==> (#[trigger] functions@[k]).model() == (if progress.reached[k] {
                    function_folded(all[k], items, progress.incoming, progress.incoming[k])
                } else {
                    all[k]
                }),
        decreases total - i,
    {
        assert(all[i as int] == program.functions@[i as int].model());
        if propagation.reached[i] {
            functions.push(
                fold_function(&program.functions[i], &program.data, &propagation.incoming, i),
            );
        } else {
            let mut parameters: Vec<Parameter> = Vec::new();
            let mut j: usize = 0;
            while j < program.functions[i].parameters.len()
                invariant
                    i < program.functions@.len(),
                    j <= program.functions@[i as int].parameters@.len(),
                    parameters@ == program.functions@[i as int].parameters@.subrange(0, j as int),
                decreases program.functions@[i as int].parameters@.len() - j,
            {
                parameters.push(program.functions[i].parameters[j]);
                j = j + 1;
                assert(parameters@ =~= program.functions@[i as int].parameters@.subrange(
                    0,
                    j as int,
                ));
            }
            assert(parameters@ =~= program.functions@[i as int].parameters@);
            functions.push(
                SyntheticFunction {
                    entry_offset: program.functions[i].entry_offset,
                    parameters,
                    body: super::ir::clone_body(&program.functions[i].body),
                },
            );
        }
        i = i + 1;
    }
    program.functions = functions;
    assert(program.model().functions =~= program_folded(old(program).model()).functions);
}

} // verus!
