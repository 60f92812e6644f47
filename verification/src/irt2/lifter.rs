//! Replace registers and stack cells by the values that they hold, one function at a time.
use super::ir::{
    body_models, models, FunctionModel, IRBinOpKind, IRExpr, IRInst, InstModel, Parameter,
    SyntheticFunction, SyntheticFunctionId, VariableId, VariableType,
};
use super::values::{
    binary, combined, constant, constant_of, convert, converted, is_snapshot, literal, literal_of,
    mask, mask_of, snapshot, width, width_of, Widths, WidthsModel,
};
use crate::irt1::ir as t1;
use crate::irt1::register_parameters::{byte_offset, cell_of, in_cell, stack_base};
use crate::numbers::Numbers;
use crate::table::{Key, Table};
use crate::x86::{full_number, register_width, Register};
use vstd::prelude::*;

verus! {

impl Key for t1::VariableId {
    fn equal(&self, other: &Self) -> (res: bool) {
        *self == *other
    }
}

pub open spec fn kind_of(kind: t1::IRBinOpKind) -> IRBinOpKind {
    match kind {
        t1::IRBinOpKind::Add => IRBinOpKind::Add,
        t1::IRBinOpKind::Sub => IRBinOpKind::Sub,
        t1::IRBinOpKind::Mul => IRBinOpKind::Mul,
        t1::IRBinOpKind::Shl => IRBinOpKind::Shl,
        t1::IRBinOpKind::Shr => IRBinOpKind::Shr,
        t1::IRBinOpKind::And => IRBinOpKind::And,
        t1::IRBinOpKind::Or => IRBinOpKind::Or,
        t1::IRBinOpKind::Eq => IRBinOpKind::Eq,
        t1::IRBinOpKind::SignedGt => IRBinOpKind::SignedGt,
        t1::IRBinOpKind::UnsignedLt => IRBinOpKind::UnsignedLt,
    }
}

fn lift_bin_op(kind: t1::IRBinOpKind) -> (res: IRBinOpKind)
    ensures
        res == kind_of(kind),
{
    match kind {
        t1::IRBinOpKind::Add => IRBinOpKind::Add,
        t1::IRBinOpKind::Sub => IRBinOpKind::Sub,
        t1::IRBinOpKind::Mul => IRBinOpKind::Mul,
        t1::IRBinOpKind::Shl => IRBinOpKind::Shl,
        t1::IRBinOpKind::Shr => IRBinOpKind::Shr,
        t1::IRBinOpKind::And => IRBinOpKind::And,
        t1::IRBinOpKind::Or => IRBinOpKind::Or,
        t1::IRBinOpKind::Eq => IRBinOpKind::Eq,
        t1::IRBinOpKind::SignedGt => IRBinOpKind::SignedGt,
        t1::IRBinOpKind::UnsignedLt => IRBinOpKind::UnsignedLt,
    }
}

/// Whether an address is absolute. Tier 1 emits absolute addresses as constants.
/// Register-derived addresses still need a memory access even when their
/// displacement is constant.
pub open spec fn is_absolute(address: t1::IRExpr) -> bool
    decreases address,
{
    match address {
        t1::IRExpr::CU8(_) | t1::IRExpr::CU32(_) | t1::IRExpr::CU64(_) => true,
        t1::IRExpr::BinOp { lhs, rhs, .. } => is_absolute(*lhs) && is_absolute(*rhs),
        _ => false,
    }
}

fn is_global_address(address: &t1::IRExpr) -> (res: bool)
    ensures
        res == is_absolute(*address),
    decreases address,
{
    match address {
        t1::IRExpr::CU8(_) | t1::IRExpr::CU32(_) | t1::IRExpr::CU64(_) => true,
        t1::IRExpr::BinOp { lhs, rhs, .. } => is_global_address(lhs) && is_global_address(rhs),
        _ => false,
    }
}

fn register_offset(register: Register) -> (res: usize)
    ensures
        res == byte_offset(register),
        res <= 1,
{
    if 5 <= register.number && register.number <= 8 {
        1
    } else {
        0
    }
}

// ---------------------------------------------------------------------------
// State

/// What is known while a function is lifted.
pub struct LifterModel {
    pub owner: SyntheticFunctionId,
    pub numbers: Numbers,
    pub declarations: Seq<(VariableId, VariableType)>,
    pub source: Map<t1::VariableId, VariableId>,
    pub registers: Map<Register, IRExpr>,
    /// What the stack cells hold, by where they start.
    pub cells: Map<i64, IRExpr>,
    /// How many bytes of each stack cell the program uses.
    pub stack: Map<i64, usize>,
    pub widths: WidthsModel,
}

pub struct FunctionLifter<'a> {
    pub owner: SyntheticFunctionId,
    pub numbers: Numbers,
    pub declarations: Vec<(VariableId, VariableType)>,
    pub source_variables: Table<t1::VariableId, VariableId>,
    pub registers: Table<Register, IRExpr>,
    pub cells: Table<i64, IRExpr>,
    pub stack: &'a Table<i64, usize>,
    pub widths: Widths,
}

/// The width of a slot, as far as its type tells.
pub open spec fn type_width(ty: VariableType) -> Option<usize> {
    match ty {
        VariableType::Register(register) => Some(register.width()),
        VariableType::Unknown(size) => size,
        VariableType::Bool => Some(1),
    }
}

impl LifterModel {
    pub open spec fn next(self) -> VariableId {
        VariableId { owner: self.owner, id: self.numbers.next }
    }

    /// The state with a variable more.
    pub open spec fn numbered(self) -> LifterModel {
        LifterModel { numbers: self.numbers.after(), ..self }
    }

    /// The state with a slot more, which is the next variable.
    pub open spec fn with_slot(self, ty: VariableType) -> LifterModel {
        let variable = self.next();
        LifterModel {
            numbers: self.numbers.after(),
            declarations: self.declarations.push((variable, ty)),
            widths: match type_width(ty) {
                Some(width) => WidthsModel {
                    variables: self.widths.variables.insert(variable, width),
                    ..self.widths
                },
                None => self.widths,
            },
            ..self
        }
    }
}

/// Nothing known yet.
pub open spec fn new_lifter(owner: SyntheticFunctionId, stack: Map<i64, usize>) -> LifterModel {
    LifterModel {
        owner,
        numbers: Numbers { next: 0, spent: false },
        declarations: Seq::empty(),
        source: Map::empty(),
        registers: Map::empty(),
        cells: Map::empty(),
        stack,
        widths: WidthsModel {
            variables: Map::empty(),
            arguments: Map::empty(),
            data: Map::empty(),
        },
    }
}

/// Bytes of a value, unless the width of the value is unknown or too small.
pub open spec fn extracted(
    value: IRExpr,
    offset: usize,
    size: usize,
    widths: WidthsModel,
) -> Option<
    IRExpr,
>
    decreases value,
{
    match width_of(value, widths) {
        None => None,
        Some(width) => if offset + size > width {
            None
        } else if offset == 0 {
            Some(converted(value, width, size, false))
        } else if constant_of(value) is Some {
            if offset < 8 {
                Some(literal_of((constant_of(value)->0).0 >> (offset * 8), size))
            } else {
                None
            }
        } else {
            let shifted = converted(
                combined(
                    IRBinOpKind::Shr,
                    value,
                    IRExpr::CU8(((offset % 32) * 8) as u8),
                    width,
                ),
                width,
                size,
                false,
            );
            match value {
                IRExpr::Convert { value: inner, source, target } => if !source.signed && target.size
                    > source.size && offset >= source.size {
                    Some(literal_of(0, size))
                } else if !source.signed && target.size > source.size && offset + size
                    <= source.size {
                    extracted(*inner, offset, size, widths)
                } else {
                    Some(shifted)
                },
                _ => Some(shifted),
            }
        },
    }
}

fn extract(value: &IRExpr, offset: usize, size: usize, widths: &Widths) -> (res: Option<IRExpr>)
    ensures
        res == extracted(*value, offset, size, widths.model()),
    decreases value,
{
    let total: usize = match width(value, widths) {
        Some(total) => total,
        None => return None,
    };
    if size > total || offset > total - size {
        return None;
    }
    if offset == 0 {
        return Some(convert(value.clone(), total, size, false));
    }
    if let Some((bits, _)) = constant(value) {
        if offset >= 8 {
            return None;
        }
        let distance: u64 = offset as u64 * 8;
        return Some(literal(bits >> distance, size));
    }
    if let IRExpr::Convert { value: inner, source, target } = value {
        if !source.signed && target.size > source.size {
            if offset >= source.size {
                return Some(literal(0, size));
            }
            if offset + size <= source.size {
                return extract(inner, offset, size, widths);
            }
        }
    }
    let shifted: IRExpr = binary(
        IRBinOpKind::Shr,
        value.clone(),
        IRExpr::CU8(((offset % 32) * 8) as u8),
        total,
    );
    Some(convert(shifted, total, size, false))
}

/// The value of a register, unless nothing is known of it.
pub open spec fn register_value(state: LifterModel, register: Register) -> Option<IRExpr> {
    let full = register.full();
    if !state.registers.dom().contains(full) {
        None
    } else if register == full {
        Some(state.registers[full])
    } else {
        extracted(state.registers[full], byte_offset(register), register.width(), state.widths)
    }
}

/// The value of the full register after a write to a part of it.
pub open spec fn after_partial_write(
    original: IRExpr,
    register: Register,
    value: IRExpr,
) -> IRExpr {
    let full_size = register_width(full_number(register.number));
    let shift = (byte_offset(register) * 8) as u64;
    let field = mask_of(register.width()) << shift;
    let preserved = combined(
        IRBinOpKind::And,
        original,
        literal_of(!field, full_size),
        full_size,
    );
    let extended = converted(value, register.width(), full_size, false);
    let inserted = combined(
        IRBinOpKind::Shl,
        extended,
        IRExpr::CU8((byte_offset(register) * 8) as u8),
        full_size,
    );
    combined(IRBinOpKind::BitOr, preserved, inserted, full_size)
}

/// The state after a write to a register, unless the part of the register that
/// the write keeps is unknown.
pub open spec fn with_register(state: LifterModel, register: Register, value: IRExpr) -> Option<
    LifterModel,
> {
    let full = register.full();
    let next = if register == full {
        Some(value)
    } else if 37 <= register.number <= 52 && register_width(full.number) == 8 {
        Some(converted(value, 4, 8, false))
    } else if state.registers.dom().contains(full) {
        Some(after_partial_write(state.registers[full], register, value))
    } else {
        None
    };
    match next {
        Some(next) => Some(
            LifterModel { registers: state.registers.insert(full, next), ..state },
        ),
        None => None,
    }
}

/// The value of bytes of the stack, unless nothing is known of their cell.
pub open spec fn stack_value(state: LifterModel, offset: i64, size: usize) -> Option<IRExpr> {
    let cell = cell_of(offset);
    if !in_cell(offset, size) || !state.cells.dom().contains(cell) {
        None
    } else {
        extracted(state.cells[cell], (offset as int % 8) as usize, size, state.widths)
    }
}

/// The value of a stack cell after a write to a part of it.
pub open spec fn after_partial_store(
    original: IRExpr,
    width: usize,
    within: usize,
    size: usize,
    value: IRExpr,
) -> IRExpr {
    let field = mask_of(size) << ((within * 8) as u64);
    let preserved = combined(IRBinOpKind::And, original, literal_of(!field, width), width);
    let inserted = combined(
        IRBinOpKind::Shl,
        converted(value, size, width, false),
        IRExpr::CU8((within * 8) as u8),
        width,
    );
    combined(IRBinOpKind::BitOr, preserved, inserted, width)
}

/// The state after a write to the stack, unless the part of the cell that the write
/// keeps is unknown.
pub open spec fn with_stack(
    state: LifterModel,
    offset: i64,
    size: usize,
    value: IRExpr,
) -> Option<LifterModel> {
    let cell = cell_of(offset);
    let within = (offset as int % 8) as usize;
    if !in_cell(offset, size) || !state.stack.dom().contains(cell) {
        None
    } else {
        let width = state.stack[cell];
        let next = if within == 0 && size == width {
            Some(value)
        } else if within + size <= width && state.cells.dom().contains(cell) {
            Some(after_partial_store(state.cells[cell], width, within, size, value))
        } else {
            None
        };
        match next {
            Some(next) => Some(LifterModel { cells: state.cells.insert(cell, next), ..state }),
            None => None,
        }
    }
}

/// What is stored in a whole stack cell is what is read from it. A store changes no
/// other cell and no register.
pub proof fn law_a_stored_value_is_read_back(
    state: LifterModel,
    offset: i64,
    size: usize,
    value: IRExpr,
)
    requires
        with_stack(state, offset, size, value) is Some,
        width_of(value, state.widths) == Some(size),
    ensures
        ({
            let after = with_stack(state, offset, size, value)->0;
            &&& offset as int % 8 == 0 && size == state.stack[cell_of(offset)] ==> stack_value(
                after,
                offset,
                size,
            ) == Some(value)
            &&& forall|other: i64, count: usize|
                cell_of(other) != cell_of(offset) ==> #[trigger] stack_value(after, other, count)
                    == stack_value(state, other, count)
            &&& forall|register: Register| #[trigger]
                register_value(after, register) == register_value(state, register)
        }),
{
}

impl<'a> FunctionLifter<'a> {
    pub open spec fn model(self) -> LifterModel {
        LifterModel {
            owner: self.owner,
            numbers: self.numbers,
            declarations: self.declarations@,
            source: self.source_variables@,
            registers: self.registers@,
            cells: self.cells@,
            stack: self.stack@,
            widths: self.widths.model(),
        }
    }

    fn new(owner: SyntheticFunctionId, stack: &'a Table<i64, usize>) -> (res: Self)
        ensures
            res.model() == new_lifter(owner, stack@),
    {
        FunctionLifter {
            owner,
            numbers: Numbers { next: 0, spent: false },
            declarations: Vec::new(),
            source_variables: Table::new(),
            registers: Table::new(),
            cells: Table::new(),
            stack,
            widths: Widths {
                variables: Table::new(),
                arguments: Table::new(),
                data: Table::new(),
            },
        }
    }

    fn variable_id(&mut self) -> (res: VariableId)
        ensures
            res == old(self).model().next(),
            final(self).model() == old(self).model().numbered(),
    {
        let variable: VariableId = VariableId { owner: self.owner, id: self.numbers.next };
        self.numbers.advance();
        variable
    }

    fn slot(&mut self, ty: VariableType) -> (res: VariableId)
        ensures
            res == old(self).model().next(),
            final(self).model() == old(self).model().with_slot(ty),
    {
        let variable: VariableId = self.variable_id();
        let width: Option<usize> = match ty {
            VariableType::Register(register) => Some(register.size()),
            VariableType::Unknown(size) => size,
            VariableType::Bool => Some(1),
        };
        if let Some(width) = width {
            self.widths.variables.insert(variable, width);
        }
        self.declarations.push((variable, ty));
        variable
    }

    fn read_register(&self, register: Register) -> (res: Option<IRExpr>)
        ensures
            res == register_value(self.model(), register),
    {
        let full: Register = register.full_register();
        match self.registers.get(full) {
            None => None,
            Some(current) => {
                if register == full {
                    Some(current.clone())
                } else {
                    extract(current, register_offset(register), register.size(), &self.widths)
                }
            },
        }
    }

    fn write_register(&mut self, register: Register, value: IRExpr) -> (res: bool)
        ensures
            match with_register(old(self).model(), register, value) {
                Some(after) => res && final(self).model() == after,
                None => !res,
            },
    {
        let full: Register = register.full_register();
        let next: IRExpr = if register == full {
            value
        } else if register.is_gpr32() && full.size() == 8 {
            convert(value, 4, 8, false)
        } else {
            let original: IRExpr = match self.registers.get(full) {
                Some(original) => original.clone(),
                None => return false,
            };
            let shift: usize = register_offset(register) * 8;
            let field: u64 = mask(register.size()) << (shift as u64);
            let preserved: IRExpr = binary(
                IRBinOpKind::And,
                original,
                literal(!field, full.size()),
                full.size(),
            );
            let extended: IRExpr = convert(value, register.size(), full.size(), false);
            let inserted: IRExpr = binary(
                IRBinOpKind::Shl,
                extended,
                IRExpr::CU8(shift as u8),
                full.size(),
            );
            binary(IRBinOpKind::BitOr, preserved, inserted, full.size())
        };
        self.registers.insert(full, next);
        true
    }

    fn read_stack(&self, offset: i64, size: usize) -> (res: Option<IRExpr>)
        ensures
            res == stack_value(self.model(), offset, size),
    {
        match stack_base(offset, size) {
            None => None,
            Some(base) => match self.cells.get(base) {
                None => None,
                Some(current) => extract(current, (offset - base) as usize, size, &self.widths),
            },
        }
    }

    fn write_stack(&mut self, offset: i64, size: usize, value: IRExpr) -> (res: bool)
        ensures
            match with_stack(old(self).model(), offset, size, value) {
                Some(after) => res && final(self).model() == after,
                None => !res,
            },
    {
        let base: i64 = match stack_base(offset, size) {
            Some(base) => base,
            None => return false,
        };
        let within: usize = (offset - base) as usize;
        let total: usize = match self.stack.get(base) {
            Some(total) => *total,
            None => return false,
        };
        let next: IRExpr = if within == 0 && size == total {
            value
        } else if within + size <= total {
            let original: IRExpr = match self.cells.get(base) {
                Some(original) => original.clone(),
                None => return false,
            };
            let field: u64 = mask(size) << (within as u64 * 8);
            let preserved: IRExpr = binary(
                IRBinOpKind::And,
                original,
                literal(!field, total),
                total,
            );
            let extended: IRExpr = convert(value, size, total, false);
            let inserted: IRExpr = binary(
                IRBinOpKind::Shl,
                extended,
                IRExpr::CU8((within * 8) as u8),
                total,
            );
            binary(IRBinOpKind::BitOr, preserved, inserted, total)
        } else {
            return false;
        };
        self.cells.insert(base, next);
        true
    }
}

// ---------------------------------------------------------------------------
// Expressions

/// The width that an operation works at.
pub open spec fn operation_width(
    kind: t1::IRBinOpKind,
    lhs: IRExpr,
    rhs: IRExpr,
    widths: WidthsModel,
) -> Option<usize> {
    let left = width_of(lhs, widths);
    let right = width_of(rhs, widths);
    if constant_of(lhs) is Some && kind != t1::IRBinOpKind::Shl && kind != t1::IRBinOpKind::Shr {
        if right is Some {
            right
        } else {
            left
        }
    } else {
        if left is Some {
            left
        } else {
            right
        }
    }
}

/// What an expression becomes: the state after it, the instructions up to it, and
/// its value. There is nothing for an expression that tier 2 has no form for, or
/// whose width is unknown.
pub open spec fn lifted(state: LifterModel, expr: t1::IRExpr, before: Seq<InstModel>) -> Option<
    (LifterModel, Seq<InstModel>, IRExpr),
>
    decreases expr,
{
    match expr {
        t1::IRExpr::BinOp { kind, lhs, rhs } => match lifted(state, *lhs, before) {
            None => None,
            Some((state, before, lhs)) => match lifted(state, *rhs, before) {
                None => None,
                Some((state, before, rhs)) => match operation_width(
                    kind,
                    lhs,
                    rhs,
                    state.widths,
                ) {
                    None => None,
                    Some(size) => Some(
                        (state, before, combined(kind_of(kind), lhs, rhs, size)),
                    ),
                },
            },
        },
        t1::IRExpr::ExtractBytes { value, offset, size } => match lifted(state, *value, before) {
            None => None,
            Some((state, before, value)) => match extracted(value, offset, size, state.widths) {
                None => None,
                Some(value) => Some((state, before, value)),
            },
        },
        t1::IRExpr::ZeroExtend { value, size } => match lifted(state, *value, before) {
            None => None,
            Some((state, before, value)) => match width_of(value, state.widths) {
                None => None,
                Some(from) => Some((state, before, converted(value, from, size, false))),
            },
        },
        t1::IRExpr::SignExtend { value, size } => match lifted(state, *value, before) {
            None => None,
            Some((state, before, value)) => match width_of(value, state.widths) {
                None => None,
                Some(from) => Some((state, before, converted(value, from, size, true))),
            },
        },
        t1::IRExpr::Deref { address, size } => match lifted(state, *address, before) {
            None => None,
            Some((state, before, inner)) => {
                let pointer = IRExpr::CastUnknownPtr {
                    address: Box::new(inner),
                    size: Some(size),
                };
                if is_absolute(*address) {
                    Some((state, before, IRExpr::Deref(Box::new(pointer))))
                } else {
                    // Keep repeated accesses distinct across stores and calls.
                    let variable = state.next();
                    Some(
                        (
                            state.with_slot(VariableType::Unknown(Some(size))),
                            before.push(InstModel::LoadVariable { variable, address: pointer }),
                            IRExpr::Variable(variable),
                        ),
                    )
                }
            },
        },
        t1::IRExpr::Reg(register) => match register_value(state, register) {
            None => None,
            Some(value) => Some((state, before, value)),
        },
        t1::IRExpr::Stack { offset, size } => match stack_value(state, offset, size) {
            None => None,
            Some(value) => Some((state, before, value)),
        },
        t1::IRExpr::CU8(value) => Some((state, before, IRExpr::CU8(value))),
        t1::IRExpr::CU32(value) => Some((state, before, IRExpr::CU32(value))),
        t1::IRExpr::CU64(value) => Some((state, before, IRExpr::CU64(value))),
        t1::IRExpr::Variable(variable) => if state.source.dom().contains(variable) {
            Some((state, before, IRExpr::Variable(state.source[variable])))
        } else {
            None
        },
        t1::IRExpr::Bool(value) => Some((state, before, IRExpr::Bool(value))),
        t1::IRExpr::Not(inner) => match lifted(state, *inner, before) {
            None => None,
            Some((state, before, inner)) => Some((state, before, IRExpr::Not(Box::new(inner)))),
        },
        _ => None,
    }
}

pub open spec fn matches(
    res: Option<IRExpr>,
    state: LifterModel,
    before: Seq<InstModel>,
    model: Option<(LifterModel, Seq<InstModel>, IRExpr)>,
) -> bool {
    match res {
        Some(value) => model == Some((state, before, value)),
        None => model is None,
    }
}

fn push_instruction(list: &mut Vec<IRInst>, instr: IRInst)
    ensures
        models(final(list)@) == models(old(list)@).push(instr.model()),
{
    let ghost before = models(list@);
    let ghost model = instr.model();
    list.push(instr);
    assert(models(list@) =~= before.push(model));
}

impl<'a> FunctionLifter<'a> {
    #[verifier::rlimit(30)]
    fn expr(&mut self, expr: &t1::IRExpr, before: &mut Vec<IRInst>) -> (res: Option<IRExpr>)
        ensures
            matches(
                res,
                final(self).model(),
                models(final(before)@),
                lifted(old(self).model(), *expr, models(old(before)@)),
            ),
        decreases expr,
    {
        match expr {
            t1::IRExpr::BinOp { kind, lhs, rhs } => {
                let left: IRExpr = match self.expr(lhs, before) {
                    Some(value) => value,
                    None => return None,
                };
                let right: IRExpr = match self.expr(rhs, before) {
                    Some(value) => value,
                    None => return None,
                };
                let left_width: Option<usize> = width(&left, &self.widths);
                let right_width: Option<usize> = width(&right, &self.widths);
                let by_right: bool = constant(&left).is_some() && !matches!(
                    kind,
                    t1::IRBinOpKind::Shl | t1::IRBinOpKind::Shr
                );
                let size: Option<usize> = if by_right {
                    if right_width.is_some() {
                        right_width
                    } else {
                        left_width
                    }
                } else {
                    if left_width.is_some() {
                        left_width
                    } else {
                        right_width
                    }
                };
                match size {
                    Some(size) => Some(binary(lift_bin_op(*kind), left, right, size)),
                    None => None,
                }
            },
            t1::IRExpr::ExtractBytes { value, offset, size } => match self.expr(value, before) {
                Some(value) => extract(&value, *offset, *size, &self.widths),
                None => None,
            },
            t1::IRExpr::ZeroExtend { value, size } => match self.expr(value, before) {
                Some(value) => match width(&value, &self.widths) {
                    Some(from) => Some(convert(value, from, *size, false)),
                    None => None,
                },
                None => None,
            },
            t1::IRExpr::SignExtend { value, size } => match self.expr(value, before) {
                Some(value) => match width(&value, &self.widths) {
                    Some(from) => Some(convert(value, from, *size, true)),
                    None => None,
                },
                None => None,
            },
            t1::IRExpr::Deref { address, size } => match self.expr(address, before) {
                Some(inner) => {
                    let pointer: IRExpr = IRExpr::CastUnknownPtr {
                        address: Box::new(inner),
                        size: Some(*size),
                    };
                    if is_global_address(address) {
                        Some(IRExpr::Deref(Box::new(pointer)))
                    } else {
                        let variable: VariableId = self.slot(VariableType::Unknown(Some(*size)));
                        push_instruction(
                            before,
                            IRInst::LoadVariable { variable, address: pointer },
                        );
                        Some(IRExpr::Variable(variable))
                    }
                },
                None => None,
            },
            t1::IRExpr::Reg(register) => self.read_register(*register),
            t1::IRExpr::Stack { offset, size } => self.read_stack(*offset, *size),
            t1::IRExpr::CU8(value) => Some(IRExpr::CU8(*value)),
            t1::IRExpr::CU32(value) => Some(IRExpr::CU32(*value)),
            t1::IRExpr::CU64(value) => Some(IRExpr::CU64(*value)),
            t1::IRExpr::Variable(variable) => match self.source_variables.get(*variable) {
                Some(local) => Some(IRExpr::Variable(*local)),
                None => None,
            },
            t1::IRExpr::Bool(value) => Some(IRExpr::Bool(*value)),
            t1::IRExpr::Not(inner) => match self.expr(inner, before) {
                Some(inner) => Some(IRExpr::Not(Box::new(inner))),
                None => None,
            },
            _ => None,
        }
    }
}

// ---------------------------------------------------------------------------
// Instructions

/// What an assignment becomes.
pub open spec fn lifted_assignment(state: LifterModel, dest: t1::IRExpr, src: t1::IRExpr) -> Option<
    (LifterModel, Seq<InstModel>),
> {
    match lifted(state, src, Seq::empty()) {
        None => None,
        Some((state, before, src)) => match dest {
            t1::IRExpr::Reg(register) => match width_of(src, state.widths) {
                None => None,
                Some(width) => {
                    let value = converted(src, width, register.width(), false);
                    // Constants and immutable snapshots need no register slot.
                    if is_snapshot(value) {
                        match with_register(state, register, value) {
                            Some(state) => Some((state, before)),
                            None => None,
                        }
                    } else {
                        let variable = state.next();
                        match with_register(
                            state.with_slot(VariableType::Register(register)),
                            register,
                            IRExpr::Variable(variable),
                        ) {
                            Some(state) => Some(
                                (
                                    state,
                                    before.push(
                                        InstModel::AssignVariable { variable, value },
                                    ),
                                ),
                            ),
                            None => None,
                        }
                    }
                },
            },
            t1::IRExpr::Stack { offset, size } => match width_of(src, state.widths) {
                None => None,
                Some(width) => {
                    let value = converted(src, width, size, false);
                    if is_snapshot(value) {
                        match with_stack(state, offset, size, value) {
                            Some(state) => Some((state, before)),
                            None => None,
                        }
                    } else {
                        let variable = state.next();
                        match with_stack(
                            state.with_slot(VariableType::Unknown(Some(size))),
                            offset,
                            size,
                            IRExpr::Variable(variable),
                        ) {
                            Some(state) => Some(
                                (
                                    state,
                                    before.push(
                                        InstModel::AssignVariable { variable, value },
                                    ),
                                ),
                            ),
                            None => None,
                        }
                    }
                },
            },
            t1::IRExpr::Deref { address, size } => match lifted(state, *address, before) {
                None => None,
                Some((state, before, inner)) => {
                    let pointer = IRExpr::CastUnknownPtr {
                        address: Box::new(inner),
                        size: Some(size),
                    };
                    Some(
                        (
                            state,
                            before.push(
                                match src {
                                    IRExpr::Variable(variable) => InstModel::StoreVariable {
                                        address: pointer,
                                        variable,
                                    },
                                    _ => InstModel::Assign {
                                        dest: IRExpr::Deref(Box::new(pointer)),
                                        src,
                                    },
                                },
                            ),
                        ),
                    )
                },
            },
            _ => match lifted(state, dest, before) {
                None => None,
                Some((state, before, dest)) => Some(
                    (state, before.push(InstModel::Assign { dest, src })),
                ),
            },
        },
    }
}

/// The values of a list of arguments.
pub open spec fn lifted_all(
    state: LifterModel,
    arguments: Seq<t1::IRExpr>,
    before: Seq<InstModel>,
) -> Option<(LifterModel, Seq<InstModel>, Seq<IRExpr>)>
    decreases arguments.len(),
{
    if arguments.len() == 0 {
        Some((state, before, Seq::empty()))
    } else {
        match lifted_all(state, arguments.drop_last(), before) {
            None => None,
            Some((state, before, front)) => match lifted(state, arguments.last(), before) {
                None => None,
                Some((state, before, last)) => Some((state, before, front.push(last))),
            },
        }
    }
}

/// What an instruction becomes: the state after it and the instructions in its
/// place.
pub open spec fn lifted_inst(state: LifterModel, instr: t1::InstModel) -> Option<
    (LifterModel, Seq<InstModel>),
>
    decreases instr,
{
    match instr {
        t1::InstModel::Assign { dest, src } => lifted_assignment(state, dest, src),
        t1::InstModel::Return(None) => Some((state, seq![InstModel::Return(None)])),
        t1::InstModel::Return(Some(value)) => match lifted(state, value, Seq::empty()) {
            None => None,
            Some((state, before, value)) => Some(
                (state, before.push(InstModel::Return(Some(value)))),
            ),
        },
        t1::InstModel::DeclareVariable { .. } => Some((state, Seq::empty())),
        t1::InstModel::AssignVariable { variable, value } => match lifted(
            state,
            value,
            Seq::empty(),
        ) {
            None => None,
            Some((state, before, value)) => if state.source.dom().contains(variable) {
                Some(
                    (
                        state,
                        before.push(
                            InstModel::AssignVariable { variable: state.source[variable], value },
                        ),
                    ),
                )
            } else {
                None
            },
        },
        t1::InstModel::If { condition, then_branch, else_branch } => match lifted(
            state,
            condition,
            Seq::empty(),
        ) {
            None => None,
            Some((state, before, condition)) => match lifted_inst(state, *then_branch) {
                None => None,
                Some((state, then_branch)) => match lifted_inst(state, *else_branch) {
                    None => None,
                    Some((state, else_branch)) => Some(
                        (
                            state,
                            before.push(InstModel::If { condition, then_branch, else_branch }),
                        ),
                    ),
                },
            },
        },
        t1::InstModel::CallSynthetic { function, arguments } => match lifted_all(
            state,
            arguments,
            Seq::empty(),
        ) {
            None => None,
            Some((state, before, arguments)) => Some(
                (
                    state,
                    before.push(
                        InstModel::CallSynthetic {
                            function: SyntheticFunctionId { id: function.id },
                            arguments,
                        },
                    ),
                ),
            ),
        },
        t1::InstModel::Jump(target) => match lifted(state, target, Seq::empty()) {
            None => None,
            Some((state, before, target)) => Some((state, before.push(InstModel::Jump(target)))),
        },
        t1::InstModel::End => Some((state, seq![InstModel::End])),
        _ => None,
    }
}

spec fn same_inst(
    res: Option<Vec<IRInst>>,
    state: LifterModel,
    model: Option<(LifterModel, Seq<InstModel>)>,
) -> bool {
    match res {
        Some(list) => model == Some((state, models(list@))),
        None => model is None,
    }
}

proof fn lemma_lifting_stops(
    state: LifterModel,
    arguments: Seq<t1::IRExpr>,
    before: Seq<InstModel>,
    count: int,
)
    requires
        0 <= count <= arguments.len(),
        lifted_all(state, arguments.subrange(0, count), before) is None,
    ensures
        lifted_all(state, arguments, before) is None,
    decreases arguments.len() - count,
{
    if count < arguments.len() {
        let next = arguments.subrange(0, count + 1);
        assert(next.drop_last() =~= arguments.subrange(0, count));
        lemma_lifting_stops(state, arguments, before, count + 1);
    } else {
        assert(arguments.subrange(0, count) =~= arguments);
    }
}

impl<'a> FunctionLifter<'a> {
    fn assignment(&mut self, dest: &t1::IRExpr, src: &t1::IRExpr) -> (res: Option<Vec<IRInst>>)
        ensures
            same_inst(
                res,
                final(self).model(),
                lifted_assignment(old(self).model(), *dest, *src),
            ),
    {
        let mut before: Vec<IRInst> = Vec::new();
        assert(models(before@) =~= Seq::<InstModel>::empty());
        let value: IRExpr = match self.expr(src, &mut before) {
            Some(value) => value,
            None => return None,
        };
        match dest {
            t1::IRExpr::Reg(register) => {
                let from: usize = match width(&value, &self.widths) {
                    Some(from) => from,
                    None => return None,
                };
                let value: IRExpr = convert(value, from, register.size(), false);
                if snapshot(&value) {
                    if !self.write_register(*register, value) {
                        return None;
                    }
                    return Some(before);
                }
                let variable: VariableId = self.slot(VariableType::Register(*register));
                if !self.write_register(*register, IRExpr::Variable(variable)) {
                    return None;
                }
                push_instruction(&mut before, IRInst::AssignVariable { variable, value });
                Some(before)
            },
            t1::IRExpr::Stack { offset, size } => {
                let from: usize = match width(&value, &self.widths) {
                    Some(from) => from,
                    None => return None,
                };
                let value: IRExpr = convert(value, from, *size, false);
                if snapshot(&value) {
                    if !self.write_stack(*offset, *size, value) {
                        return None;
                    }
                    return Some(before);
                }
                let variable: VariableId = self.slot(VariableType::Unknown(Some(*size)));
                if !self.write_stack(*offset, *size, IRExpr::Variable(variable)) {
                    return None;
                }
                push_instruction(&mut before, IRInst::AssignVariable { variable, value });
                Some(before)
            },
            t1::IRExpr::Deref { address, size } => {
                let inner: IRExpr = match self.expr(address, &mut before) {
                    Some(inner) => inner,
                    None => return None,
                };
                let pointer: IRExpr = IRExpr::CastUnknownPtr {
                    address: Box::new(inner),
                    size: Some(*size),
                };
                let instr: IRInst = match value {
                    IRExpr::Variable(variable) => IRInst::StoreVariable {
                        address: pointer,
                        variable,
                    },
                    src => IRInst::Assign { dest: IRExpr::Deref(Box::new(pointer)), src },
                };
                push_instruction(&mut before, instr);
                Some(before)
            },
            _ => {
                let dest: IRExpr = match self.expr(dest, &mut before) {
                    Some(dest) => dest,
                    None => return None,
                };
                push_instruction(&mut before, IRInst::Assign { dest, src: value });
                Some(before)
            },
        }
    }

    fn arguments(&mut self, list: &Vec<t1::IRExpr>, before: &mut Vec<IRInst>) -> (res: Option<
        Vec<IRExpr>,
    >)
        ensures
            match res {
                Some(values) => lifted_all(
                    old(self).model(),
                    list@,
                    models(old(before)@),
                ) == Some((final(self).model(), models(final(before)@), values@)),
                None => lifted_all(old(self).model(), list@, models(old(before)@)) is None,
            },
    {
        let ghost start = self.model();
        let ghost first = models(before@);
        let mut values: Vec<IRExpr> = Vec::new();
        assert(list@.subrange(0, 0) =~= Seq::empty());
        let mut i: usize = 0;
        while i < list.len()
            invariant
                i <= list@.len(),
                start == old(self).model(),
                first == models(old(before)@),
                lifted_all(start, list@.subrange(0, i as int), first) == Some(
                    (self.model(), models(before@), values@),
                ),
            decreases list@.len() - i,
        {
            let ghost prefix = list@.subrange(0, i + 1);
            assert(prefix.drop_last() =~= list@.subrange(0, i as int));
            match self.expr(&list[i], before) {
                Some(value) => {
                    values.push(value);
                },
                None => {
                    proof {
                        lemma_lifting_stops(start, list@, first, i + 1);
                    }
                    return None;
                },
            }
            i = i + 1;
        }
        assert(list@.subrange(0, i as int) =~= list@);
        Some(values)
    }

    #[verifier::rlimit(30)]
    fn inst(&mut self, instr: &t1::IRInst) -> (res: Option<Vec<IRInst>>)
        ensures
            same_inst(res, final(self).model(), lifted_inst(old(self).model(), instr.model())),
        decreases instr,
    {
        let mut before: Vec<IRInst> = Vec::new();
        assert(models(before@) =~= Seq::<InstModel>::empty());
        match instr {
            t1::IRInst::Assign { dest, src } => {
                return self.assignment(dest, src);
            },
            t1::IRInst::Return(None) => {
                push_instruction(&mut before, IRInst::Return(None));
                assert(models(before@) =~= seq![InstModel::Return(None)]);
            },
            t1::IRInst::Return(Some(value)) => {
                let value: IRExpr = match self.expr(value, &mut before) {
                    Some(value) => value,
                    None => return None,
                };
                push_instruction(&mut before, IRInst::Return(Some(value)));
            },
            t1::IRInst::DeclareVariable { .. } => {},
            t1::IRInst::AssignVariable { variable, value } => {
                let value: IRExpr = match self.expr(value, &mut before) {
                    Some(value) => value,
                    None => return None,
                };
                let variable: VariableId = match self.source_variables.get(*variable) {
                    Some(local) => *local,
                    None => return None,
                };
                push_instruction(&mut before, IRInst::AssignVariable { variable, value });
            },
            t1::IRInst::If { condition, then_branch, else_branch } => {
                let condition: IRExpr = match self.expr(condition, &mut before) {
                    Some(condition) => condition,
                    None => return None,
                };
                let then_branch: Vec<IRInst> = match self.inst(then_branch) {
                    Some(list) => list,
                    None => return None,
                };
                let else_branch: Vec<IRInst> = match self.inst(else_branch) {
                    Some(list) => list,
                    None => return None,
                };
                push_instruction(
                    &mut before,
                    IRInst::If { condition, then_branch, else_branch },
                );
            },
            t1::IRInst::CallSynthetic { function, arguments } => {
                let arguments: Vec<IRExpr> = match self.arguments(arguments, &mut before) {
                    Some(arguments) => arguments,
                    None => return None,
                };
                push_instruction(
                    &mut before,
                    IRInst::CallSynthetic {
                        function: SyntheticFunctionId { id: function.id },
                        arguments,
                    },
                );
            },
            t1::IRInst::Jump(target) => {
                let target: IRExpr = match self.expr(target, &mut before) {
                    Some(target) => target,
                    None => return None,
                };
                push_instruction(&mut before, IRInst::Jump(target));
            },
            t1::IRInst::End => {
                push_instruction(&mut before, IRInst::End);
                assert(models(before@) =~= seq![InstModel::End]);
            },
            _ => return None,
        }
        Some(before)
    }
}

// ---------------------------------------------------------------------------
// Functions

/// The state and the parameters of a function at its start. What registers and stack
/// cells hold at the entry are arguments; elsewhere they are slots and values.
pub open spec fn started(state: LifterModel, parameters: Seq<t1::Parameter>, entry: bool) -> Option<
    (LifterModel, Seq<Parameter>),
>
    decreases parameters.len(),
{
    if parameters.len() == 0 {
        Some((state, Seq::empty()))
    } else {
        match (started(state, parameters.drop_last(), entry), parameters.last()) {
            (Some((state, front)), t1::Parameter::Register(register)) => {
                let full = register.full();
                let size = register.width();
                let full_size = register_width(full.number);
                if entry {
                    let ordinal = parameters.len() as usize;
                    Some(
                        (
                            LifterModel {
                                registers: state.registers.insert(
                                    full,
                                    converted(IRExpr::Argument(ordinal), size, full_size, false),
                                ),
                                widths: WidthsModel {
                                    arguments: state.widths.arguments.insert(ordinal, size),
                                    ..state.widths
                                },
                                ..state
                            },
                            front.push(Parameter::Native { ordinal, register }),
                        ),
                    )
                } else {
                    let variable = state.next();
                    Some(
                        (
                            LifterModel {
                                registers: state.registers.insert(
                                    full,
                                    converted(IRExpr::Variable(variable), size, full_size, false),
                                ),
                                widths: WidthsModel {
                                    variables: state.widths.variables.insert(variable, size),
                                    ..state.widths
                                },
                                ..state.numbered()
                            },
                            front.push(Parameter::Slot { variable, register }),
                        ),
                    )
                }
            },
            (Some((state, front)), t1::Parameter::Stack { offset, size }) => {
                if !state.stack.dom().contains(offset) {
                    None
                } else if entry {
                    let ordinal = parameters.len() as usize;
                    let argument = IRExpr::Argument(ordinal);
                    Some(
                        (
                            LifterModel {
                                cells: state.cells.insert(
                                    offset,
                                    converted(argument, size, state.stack[offset], false),
                                ),
                                widths: WidthsModel {
                                    arguments: state.widths.arguments.insert(ordinal, size),
                                    ..state.widths
                                },
                                ..state
                            },
                            front.push(Parameter::Input { ordinal, size }),
                        ),
                    )
                } else {
                    let variable = state.next();
                    let value = IRExpr::Variable(variable);
                    Some(
                        (
                            LifterModel {
                                cells: state.cells.insert(
                                    offset,
                                    converted(value, size, state.stack[offset], false),
                                ),
                                widths: WidthsModel {
                                    variables: state.widths.variables.insert(variable, size),
                                    ..state.widths
                                },
                                ..state.numbered()
                            },
                            front.push(Parameter::Value { variable, size }),
                        ),
                    )
                }
            },
            _ => None,
        }
    }
}

/// The state with a slot for every variable that a body declares.
pub open spec fn declared(state: LifterModel, body: Seq<(usize, t1::InstModel)>) -> LifterModel
    decreases body.len(),
{
    if body.len() == 0 {
        state
    } else {
        let state = declared(state, body.drop_last());
        match body.last().1 {
            t1::InstModel::DeclareVariable { variable, .. } => LifterModel {
                source: state.source.insert(variable, state.next()),
                ..state.with_slot(VariableType::Bool)
            },
            _ => state,
        }
    }
}

pub open spec fn placed(list: Seq<InstModel>, offset: usize) -> Seq<(usize, InstModel)> {
    list.map_values(|instr: InstModel| (offset, instr))
}

/// What a body becomes.
pub open spec fn lifted_body(state: LifterModel, body: Seq<(usize, t1::InstModel)>) -> Option<
    (LifterModel, Seq<(usize, InstModel)>),
>
    decreases body.len(),
{
    if body.len() == 0 {
        Some((state, Seq::empty()))
    } else {
        match lifted_body(state, body.drop_last()) {
            None => None,
            Some((state, front)) => match lifted_inst(state, body.last().1) {
                None => None,
                Some((state, list)) => Some((state, front + placed(list, body.last().0))),
            },
        }
    }
}

/// The declarations of slots.
pub open spec fn declarations_at(
    declarations: Seq<(VariableId, VariableType)>,
    offset: usize,
) -> Seq<(usize, InstModel)> {
    declarations.map_values(
        |d: (VariableId, VariableType)|
            (offset, InstModel::DeclareVariable { variable: d.0, ty: d.1 }),
    )
}

/// What a function becomes, unless something in it has no form in tier 2 or the
/// numbers for variables run out.
pub open spec fn lifted_function(
    id: usize,
    source: t1::FunctionModel,
    entry: bool,
    stack: Map<i64, usize>,
) -> Option<FunctionModel> {
    match started(new_lifter(SyntheticFunctionId { id }, stack), source.parameters, entry) {
        None => None,
        Some((state, parameters)) => match lifted_body(
            declared(state, source.body),
            source.body,
        ) {
            None => None,
            Some((state, body)) => if state.numbers.spent {
                None
            } else {
                Some(
                    FunctionModel {
                        entry_offset: source.entry_offset,
                        parameters,
                        body: declarations_at(state.declarations, source.entry_offset) + body,
                    },
                )
            },
        },
    }
}

proof fn lemma_starting_stops(
    state: LifterModel,
    parameters: Seq<t1::Parameter>,
    entry: bool,
    count: int,
)
    requires
        0 <= count <= parameters.len(),
        started(state, parameters.subrange(0, count), entry) is None,
    ensures
        started(state, parameters, entry) is None,
    decreases parameters.len() - count,
{
    if count < parameters.len() {
        let next = parameters.subrange(0, count + 1);
        assert(next.drop_last() =~= parameters.subrange(0, count));
        lemma_starting_stops(state, parameters, entry, count + 1);
    } else {
        assert(parameters.subrange(0, count) =~= parameters);
    }
}

proof fn lemma_body_stops(state: LifterModel, body: Seq<(usize, t1::InstModel)>, count: int)
    requires
        0 <= count <= body.len(),
        lifted_body(state, body.subrange(0, count)) is None,
    ensures
        lifted_body(state, body) is None,
    decreases body.len() - count,
{
    if count < body.len() {
        let next = body.subrange(0, count + 1);
        assert(next.drop_last() =~= body.subrange(0, count));
        lemma_body_stops(state, body, count + 1);
    } else {
        assert(body.subrange(0, count) =~= body);
    }
}

impl<'a> FunctionLifter<'a> {
    fn start(&mut self, list: &Vec<t1::Parameter>, entry: bool) -> (res: Option<Vec<Parameter>>)
        ensures
            match res {
                Some(parameters) => started(old(self).model(), list@, entry) == Some(
                    (final(self).model(), parameters@),
                ),
                None => started(old(self).model(), list@, entry) is None,
            },
    {
        let ghost first = self.model();
        let mut res: Vec<Parameter> = Vec::new();
        assert(list@.subrange(0, 0) =~= Seq::empty());
        let mut i: usize = 0;
        while i < list.len()
            invariant
                i <= list@.len(),
                first == old(self).model(),
                started(first, list@.subrange(0, i as int), entry) == Some((self.model(), res@)),
            decreases list@.len() - i,
        {
            let ghost prefix = list@.subrange(0, i + 1);
            assert(prefix.drop_last() =~= list@.subrange(0, i as int));
            let total: usize = list.len();
            assert(i + 1 <= total);
            match list[i] {
                t1::Parameter::Register(register) => {
                    let full: Register = register.full_register();
                    let size: usize = register.size();
                    if entry {
                        let ordinal: usize = i + 1;
                        self.widths.arguments.insert(ordinal, size);
                        self.registers.insert(
                            full,
                            convert(IRExpr::Argument(ordinal), size, full.size(), false),
                        );
                        res.push(Parameter::Native { ordinal, register });
                    } else {
                        let variable: VariableId = self.variable_id();
                        self.widths.variables.insert(variable, size);
                        self.registers.insert(
                            full,
                            convert(IRExpr::Variable(variable), size, full.size(), false),
                        );
                        res.push(Parameter::Slot { variable, register });
                    }
                },
                t1::Parameter::Stack { offset, size } => {
                    let width: usize = match self.stack.get(offset) {
                        Some(width) => *width,
                        None => {
                            proof {
                                lemma_starting_stops(first, list@, entry, i + 1);
                            }
                            return None;
                        },
                    };
                    if entry {
                        let ordinal: usize = i + 1;
                        self.widths.arguments.insert(ordinal, size);
                        self.cells.insert(
                            offset,
                            convert(IRExpr::Argument(ordinal), size, width, false),
                        );
                        res.push(Parameter::Input { ordinal, size });
                    } else {
                        let variable: VariableId = self.variable_id();
                        self.widths.variables.insert(variable, size);
                        self.cells.insert(
                            offset,
                            convert(IRExpr::Variable(variable), size, width, false),
                        );
                        res.push(Parameter::Value { variable, size });
                    }
                },
            }
            i = i + 1;
        }
        assert(list@.subrange(0, i as int) =~= list@);
        Some(res)
    }

    fn declare(&mut self, body: &Vec<(usize, t1::IRInst)>)
        ensures
            final(self).model() == declared(old(self).model(), t1::body_models(body@)),
    {
        let ghost all = t1::body_models(body@);
        let ghost first = self.model();
        assert(all.subrange(0, 0) =~= Seq::empty());
        let mut i: usize = 0;
        while i < body.len()
            invariant
                i <= body@.len(),
                all == t1::body_models(body@),
                self.model() == declared(first, all.subrange(0, i as int)),
            decreases body@.len() - i,
        {
            let ghost prefix = all.subrange(0, i + 1);
            assert(prefix.drop_last() =~= all.subrange(0, i as int));
            if let t1::IRInst::DeclareVariable { variable, .. } = &body[i].1 {
                let slot: VariableId = self.slot(VariableType::Bool);
                self.source_variables.insert(*variable, slot);
            }
            i = i + 1;
        }
        assert(all.subrange(0, i as int) =~= all);
    }

    fn body(&mut self, body: &Vec<(usize, t1::IRInst)>) -> (res: Option<Vec<(usize, IRInst)>>)
        ensures
            match res {
                Some(list) => lifted_body(old(self).model(), t1::body_models(body@)) == Some(
                    (final(self).model(), body_models(list@)),
                ),
                None => lifted_body(old(self).model(), t1::body_models(body@)) is None,
            },
    {
        let ghost all = t1::body_models(body@);
        let ghost first = self.model();
        let mut res: Vec<(usize, IRInst)> = Vec::new();
        assert(all.subrange(0, 0) =~= Seq::empty());
        assert(body_models(res@) =~= Seq::<(usize, InstModel)>::empty());
        let mut i: usize = 0;
        while i < body.len()
            invariant
                i <= body@.len(),
                first == old(self).model(),
                all == t1::body_models(body@),
                lifted_body(first, all.subrange(0, i as int)) == Some(
                    (self.model(), body_models(res@)),
                ),
            decreases body@.len() - i,
        {
            let ghost prefix = all.subrange(0, i + 1);
            assert(prefix.drop_last() =~= all.subrange(0, i as int));
            match self.inst(&body[i].1) {
                Some(list) => {
                    put_at(&mut res, &list, body[i].0);
                },
                None => {
                    proof {
                        lemma_body_stops(first, all, i + 1);
                    }
                    return None;
                },
            }
            i = i + 1;
        }
        assert(all.subrange(0, i as int) =~= all);
        Some(res)
    }
}

fn put_at(out: &mut Vec<(usize, IRInst)>, list: &Vec<IRInst>, offset: usize)
    ensures
        body_models(final(out)@) == body_models(old(out)@) + placed(models(list@), offset),
{
    let ghost before = body_models(out@);
    let ghost all = models(list@);
    assert(body_models(out@) =~= before + placed(all.subrange(0, 0), offset));
    let mut i: usize = 0;
    while i < list.len()
        invariant
            i <= list@.len(),
            all == models(list@),
            body_models(out@) == before + placed(all.subrange(0, i as int), offset),
        decreases list@.len() - i,
    {
        let ghost last = body_models(out@);
        out.push((offset, list[i].clone()));
        i = i + 1;
        proof {
            assert(body_models(out@) =~= last.push((offset, all[i - 1])));
            assert(body_models(out@) =~= before + placed(all.subrange(0, i as int), offset));
        }
    }
    assert(all.subrange(0, i as int) =~= all);
}

fn put_declarations(list: &Vec<(VariableId, VariableType)>, offset: usize) -> (res: Vec<
    (usize, IRInst),
>)
    ensures
        body_models(res@) == declarations_at(list@, offset),
{
    let mut res: Vec<(usize, IRInst)> = Vec::new();
    let mut i: usize = 0;
    while i < list.len()
        invariant
            i <= list@.len(),
            res@.len() == i,
            forall|k: int|
                0 <= k < i ==> (#[trigger] res@[k]).0 == offset && res@[k].1.model() == (
                InstModel::DeclareVariable { variable: list@[k].0, ty: list@[k].1 }),
        decreases list@.len() - i,
    {
        res.push((offset, IRInst::DeclareVariable { variable: list[i].0, ty: list[i].1 }));
        i = i + 1;
    }
    assert(body_models(res@) =~= declarations_at(list@, offset));
    res
}

/// Lifts a function, if everything in it has a form in tier 2. `stack` says how many
/// bytes of each stack cell the program uses.
pub fn lift_function(
    id: usize,
    source: &t1::SyntheticFunction,
    entry: bool,
    stack: &Table<i64, usize>,
) -> (res: Option<SyntheticFunction>)
    ensures
        match res {
            Some(function) => lifted_function(id, source.model(), entry, stack@) == Some(
                function.model(),
            ),
            None => lifted_function(id, source.model(), entry, stack@) is None,
        },
{
    let mut lifter: FunctionLifter = FunctionLifter::new(SyntheticFunctionId { id }, stack);
    let parameters: Vec<Parameter> = match lifter.start(&source.parameters, entry) {
        Some(parameters) => parameters,
        None => return None,
    };
    lifter.declare(&source.body);
    let mut body: Vec<(usize, IRInst)> = match lifter.body(&source.body) {
        Some(body) => body,
        None => return None,
    };
    if lifter.numbers.spent {
        return None;
    }
    let mut out: Vec<(usize, IRInst)> = put_declarations(
        &lifter.declarations,
        source.entry_offset,
    );
    let ghost front = body_models(out@);
    let ghost back = body_models(body@);
    out.append(&mut body);
    assert(body_models(out@) =~= front + back);
    Some(SyntheticFunction { entry_offset: source.entry_offset, parameters, body: out })
}

} // verus!
