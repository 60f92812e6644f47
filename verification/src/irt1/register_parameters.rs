//! Collect the register and stack bytes that a synthetic function needs from
//! its caller, and hand them over at every call.
use super::ir::{
    body_calls_within, body_models, calls_within, function_models, functions_linked, is_linked,
    FunctionModel, IRExpr, IRInst, InstModel, Parameter, Program, ProgramModel, SyntheticFunction,
};
use crate::table::{Key, KeySet, Table};
use crate::x86::{full_number, register_width, Register};
use vstd::prelude::*;

verus! {

/// A place that a value is handed over in: a full register or an eight-byte cell
/// of the stack.
#[derive(Clone, Copy, Debug, PartialEq, Eq, Structural)]
pub enum Location {
    Register(Register),
    Stack(i64),
}

impl Key for Location {
    fn equal(&self, other: &Self) -> (res: bool) {
        *self == *other
    }
}

impl Location {
    /// Registers come first, by number, and then the stack, by offset.
    pub open spec fn before(self, other: Location) -> bool {
        match (self, other) {
            (Location::Register(a), Location::Register(b)) => a.number < b.number,
            (Location::Register(_), Location::Stack(_)) => true,
            (Location::Stack(_), Location::Register(_)) => false,
            (Location::Stack(a), Location::Stack(b)) => a < b,
        }
    }

    fn precedes(self, other: Location) -> (res: bool)
        ensures
            res == self.before(other),
    {
        match (self, other) {
            (Location::Register(a), Location::Register(b)) => a.number < b.number,
            (Location::Register(_), Location::Stack(_)) => true,
            (Location::Stack(_), Location::Register(_)) => false,
            (Location::Stack(a), Location::Stack(b)) => a < b,
        }
    }
}

/// One byte of a location.
#[derive(Clone, Copy, Debug, PartialEq, Eq, Structural)]
pub struct Byte {
    pub location: Location,
    pub byte: usize,
}

impl Key for Byte {
    fn equal(&self, other: &Self) -> (res: bool) {
        *self == *other
    }
}

/// Where a register starts within its full register.
pub open spec fn byte_offset(register: Register) -> usize {
    if 5 <= register.number <= 8 {
        1
    } else {
        0
    }
}

fn register_offset(register: Register) -> (res: usize)
    ensures
        res == byte_offset(register),
{
    if 5 <= register.number && register.number <= 8 {
        1
    } else {
        0
    }
}

// ---------------------------------------------------------------------------
// Stack cells

/// The cell that an offset lies in.
pub open spec fn cell_of(offset: i64) -> i64 {
    (offset - offset as int % 8) as i64
}

/// Whether an access stays within its cell.
pub open spec fn in_cell(offset: i64, size: usize) -> bool {
    offset as int % 8 + size <= 8
}

/// The cell of an access, if the access stays within it.
pub fn stack_base(offset: i64, size: usize) -> (res: Option<i64>)
    ensures
        res == (if in_cell(offset, size) {
            Some(cell_of(offset))
        } else {
            None
        }),
{
    match offset.checked_rem_euclid(8) {
        Some(rest) => {
            assert(rest == offset as int % 8);
            assert(offset - rest >= i64::MIN) by {
                assert((i64::MIN as int) % 8 == 0);
            }
            if size <= 8 && rest as usize + size <= 8 {
                Some(offset - rest)
            } else {
                None
            }
        },
        None => None,
    }
}

/// The widths of the cells with one more access.
pub open spec fn widened(widths: Map<i64, usize>, offset: i64, size: usize) -> Map<i64, usize> {
    let extent = (offset as int % 8 + size) as usize;
    let cell = cell_of(offset);
    if widths.dom().contains(cell) && widths[cell] >= extent {
        widths
    } else {
        widths.insert(cell, extent)
    }
}

/// The widths of the cells with the accesses of an expression, unless one
/// crosses a cell.
pub open spec fn widths_with(expr: IRExpr, widths: Map<i64, usize>) -> Option<Map<i64, usize>>
    decreases expr,
{
    match expr {
        IRExpr::Stack { offset, size } => if in_cell(offset, size) {
            Some(widened(widths, offset, size))
        } else {
            None
        },
        IRExpr::BinOp { lhs, rhs, .. } => match widths_with(*lhs, widths) {
            Some(widths) => widths_with(*rhs, widths),
            None => None,
        },
        IRExpr::Deref { address: inner, .. }
        | IRExpr::ExtractBytes { value: inner, .. }
        | IRExpr::ZeroExtend { value: inner, .. }
        | IRExpr::SignExtend { value: inner, .. }
        | IRExpr::Not(inner) => widths_with(*inner, widths),
        _ => Some(widths),
    }
}

pub open spec fn widths_with_list(list: Seq<IRExpr>, widths: Map<i64, usize>) -> Option<
    Map<i64, usize>,
>
    decreases list.len(),
{
    if list.len() == 0 {
        Some(widths)
    } else {
        match widths_with_list(list.drop_last(), widths) {
            Some(widths) => widths_with(list.last(), widths),
            None => None,
        }
    }
}

pub open spec fn widths_with_inst(instr: InstModel, widths: Map<i64, usize>) -> Option<
    Map<i64, usize>,
>
    decreases instr,
{
    match instr {
        InstModel::Assign { dest, src } => match widths_with(dest, widths) {
            Some(widths) => widths_with(src, widths),
            None => None,
        },
        InstModel::SetFlagsFrom { expr, .. }
        | InstModel::Return(Some(expr))
        | InstModel::Jump(expr)
        | InstModel::AssignVariable { value: expr, .. } => widths_with(expr, widths),
        InstModel::If { condition, then_branch, else_branch } => match widths_with(
            condition,
            widths,
        ) {
            Some(widths) => match widths_with_inst(*then_branch, widths) {
                Some(widths) => widths_with_inst(*else_branch, widths),
                None => None,
            },
            None => None,
        },
        InstModel::CallSynthetic { arguments, .. } => widths_with_list(arguments, widths),
        _ => Some(widths),
    }
}

pub open spec fn widths_with_body(body: Seq<(usize, InstModel)>, widths: Map<i64, usize>) -> Option<
    Map<i64, usize>,
>
    decreases body.len(),
{
    if body.len() == 0 {
        Some(widths)
    } else {
        match widths_with_body(body.drop_last(), widths) {
            Some(widths) => widths_with_inst(body.last().1, widths),
            None => None,
        }
    }
}

/// How many bytes of each stack cell the functions use, unless an access crosses
/// a cell.
pub open spec fn widths_of(functions: Seq<FunctionModel>) -> Option<Map<i64, usize>>
    decreases functions.len(),
{
    if functions.len() == 0 {
        Some(Map::empty())
    } else {
        match widths_of(functions.drop_last()) {
            Some(widths) => widths_with_body(functions.last().body, widths),
            None => None,
        }
    }
}

/// Whether the cells are wide enough for an expression, and no wider than a cell.
pub open spec fn covered(expr: IRExpr, widths: Map<i64, usize>) -> bool
    decreases expr,
{
    match expr {
        IRExpr::Stack { offset, size } => {
            &&& in_cell(offset, size)
            &&& widths.dom().contains(cell_of(offset))
            &&& offset as int % 8 + size <= widths[cell_of(offset)]
        },
        IRExpr::BinOp { lhs, rhs, .. } => covered(*lhs, widths) && covered(*rhs, widths),
        IRExpr::Deref { address: inner, .. }
        | IRExpr::ExtractBytes { value: inner, .. }
        | IRExpr::ZeroExtend { value: inner, .. }
        | IRExpr::SignExtend { value: inner, .. }
        | IRExpr::Not(inner) => covered(*inner, widths),
        _ => true,
    }
}

pub open spec fn covered_inst(instr: InstModel, widths: Map<i64, usize>) -> bool
    decreases instr,
{
    match instr {
        InstModel::Assign { dest, src } => covered(dest, widths) && covered(src, widths),
        InstModel::SetFlagsFrom { expr, .. }
        | InstModel::Return(Some(expr))
        | InstModel::Jump(expr)
        | InstModel::AssignVariable { value: expr, .. } => covered(expr, widths),
        InstModel::If { condition, then_branch, else_branch } => covered(condition, widths)
            && covered_inst(*then_branch, widths) && covered_inst(*else_branch, widths),
        _ => true,
    }
}

/// Whether no cell is wider than eight bytes.
pub open spec fn narrow(widths: Map<i64, usize>) -> bool {
    forall|cell: i64| #[trigger] widths.dom().contains(cell) ==> widths[cell] <= 8
}

/// Whether the second widths cover everything that the first do.
pub open spec fn grown(low: Map<i64, usize>, high: Map<i64, usize>) -> bool {
    forall|cell: i64| #[trigger]
        low.dom().contains(cell) ==> high.dom().contains(cell) && low[cell] <= high[cell]
}

proof fn lemma_covered_grows(expr: IRExpr, low: Map<i64, usize>, high: Map<i64, usize>)
    requires
        covered(expr, low),
        grown(low, high),
    ensures
        covered(expr, high),
    decreases expr,
{
    match expr {
        IRExpr::BinOp { lhs, rhs, .. } => {
            lemma_covered_grows(*lhs, low, high);
            lemma_covered_grows(*rhs, low, high);
        },
        IRExpr::Deref { address: inner, .. }
        | IRExpr::ExtractBytes { value: inner, .. }
        | IRExpr::ZeroExtend { value: inner, .. }
        | IRExpr::SignExtend { value: inner, .. }
        | IRExpr::Not(inner) => {
            lemma_covered_grows(*inner, low, high);
        },
        _ => {},
    }
}

proof fn lemma_covered_inst_grows(instr: InstModel, low: Map<i64, usize>, high: Map<i64, usize>)
    requires
        covered_inst(instr, low),
        grown(low, high),
    ensures
        covered_inst(instr, high),
    decreases instr,
{
    match instr {
        InstModel::Assign { dest, src } => {
            lemma_covered_grows(dest, low, high);
            lemma_covered_grows(src, low, high);
        },
        InstModel::SetFlagsFrom { expr, .. }
        | InstModel::Return(Some(expr))
        | InstModel::Jump(expr)
        | InstModel::AssignVariable { value: expr, .. } => {
            lemma_covered_grows(expr, low, high);
        },
        InstModel::If { condition, then_branch, else_branch } => {
            lemma_covered_grows(condition, low, high);
            lemma_covered_inst_grows(*then_branch, low, high);
            lemma_covered_inst_grows(*else_branch, low, high);
        },
        _ => {},
    }
}

proof fn lemma_widths_cover(expr: IRExpr, widths: Map<i64, usize>)
    requires
        narrow(widths),
        widths_with(expr, widths) is Some,
    ensures
        narrow(widths_with(expr, widths)->0),
        grown(widths, widths_with(expr, widths)->0),
        covered(expr, widths_with(expr, widths)->0),
    decreases expr,
{
    match expr {
        IRExpr::BinOp { lhs, rhs, .. } => {
            lemma_widths_cover(*lhs, widths);
            let middle = widths_with(*lhs, widths)->0;
            lemma_widths_cover(*rhs, middle);
            lemma_covered_grows(*lhs, middle, widths_with(*rhs, middle)->0);
        },
        IRExpr::Deref { address: inner, .. }
        | IRExpr::ExtractBytes { value: inner, .. }
        | IRExpr::ZeroExtend { value: inner, .. }
        | IRExpr::SignExtend { value: inner, .. }
        | IRExpr::Not(inner) => {
            lemma_widths_cover(*inner, widths);
        },
        _ => {},
    }
}

proof fn lemma_widths_cover_list(list: Seq<IRExpr>, widths: Map<i64, usize>)
    requires
        narrow(widths),
        widths_with_list(list, widths) is Some,
    ensures
        narrow(widths_with_list(list, widths)->0),
        grown(widths, widths_with_list(list, widths)->0),
    decreases list.len(),
{
    if list.len() > 0 {
        lemma_widths_cover_list(list.drop_last(), widths);
        lemma_widths_cover(list.last(), widths_with_list(list.drop_last(), widths)->0);
    }
}

proof fn lemma_widths_cover_inst(instr: InstModel, widths: Map<i64, usize>)
    requires
        narrow(widths),
        widths_with_inst(instr, widths) is Some,
    ensures
        narrow(widths_with_inst(instr, widths)->0),
        grown(widths, widths_with_inst(instr, widths)->0),
        covered_inst(instr, widths_with_inst(instr, widths)->0),
    decreases instr,
{
    match instr {
        InstModel::Assign { dest, src } => {
            lemma_widths_cover(dest, widths);
            let middle = widths_with(dest, widths)->0;
            lemma_widths_cover(src, middle);
            lemma_covered_grows(dest, middle, widths_with(src, middle)->0);
        },
        InstModel::SetFlagsFrom { expr, .. }
        | InstModel::Return(Some(expr))
        | InstModel::Jump(expr)
        | InstModel::AssignVariable { value: expr, .. } => {
            lemma_widths_cover(expr, widths);
        },
        InstModel::If { condition, then_branch, else_branch } => {
            lemma_widths_cover(condition, widths);
            let first = widths_with(condition, widths)->0;
            lemma_widths_cover_inst(*then_branch, first);
            let second = widths_with_inst(*then_branch, first)->0;
            lemma_widths_cover_inst(*else_branch, second);
            let third = widths_with_inst(*else_branch, second)->0;
            lemma_covered_grows(condition, first, third);
            lemma_covered_inst_grows(*then_branch, second, third);
        },
        InstModel::CallSynthetic { arguments, .. } => {
            lemma_widths_cover_list(arguments, widths);
        },
        _ => {},
    }
}

proof fn lemma_widths_cover_body(body: Seq<(usize, InstModel)>, widths: Map<i64, usize>)
    requires
        narrow(widths),
        widths_with_body(body, widths) is Some,
    ensures
        narrow(widths_with_body(body, widths)->0),
        grown(widths, widths_with_body(body, widths)->0),
        forall|i: int|
            0 <= i < body.len() ==> covered_inst(
                (#[trigger] body[i]).1,
                widths_with_body(body, widths)->0,
            ),
    decreases body.len(),
{
    if body.len() > 0 {
        let front = body.drop_last();
        lemma_widths_cover_body(front, widths);
        let middle = widths_with_body(front, widths)->0;
        lemma_widths_cover_inst(body.last().1, middle);
        let after = widths_with_body(body, widths)->0;
        assert forall|i: int| 0 <= i < body.len() implies covered_inst(
            (#[trigger] body[i]).1,
            after,
        ) by {
            if i < body.len() - 1 {
                assert(front[i] == body[i]);
                lemma_covered_inst_grows(body[i].1, middle, after);
            }
        }
    }
}

/// Whether the cells are wide enough for every function.
pub open spec fn all_covered(functions: Seq<FunctionModel>, widths: Map<i64, usize>) -> bool {
    forall|f: int, i: int|
        0 <= f < functions.len() && 0 <= i < functions[f].body.len() ==> covered_inst(
            (#[trigger] functions[f].body[i]).1,
            widths,
        )
}

proof fn lemma_widths_cover_all(functions: Seq<FunctionModel>)
    requires
        widths_of(functions) is Some,
    ensures
        narrow(widths_of(functions)->0),
        all_covered(functions, widths_of(functions)->0),
    decreases functions.len(),
{
    if functions.len() > 0 {
        let front = functions.drop_last();
        lemma_widths_cover_all(front);
        let middle = widths_of(front)->0;
        lemma_widths_cover_body(functions.last().body, middle);
        let after = widths_of(functions)->0;
        assert forall|f: int, i: int|
            0 <= f < functions.len() && 0 <= i < functions[f].body.len() implies covered_inst(
            (#[trigger] functions[f].body[i]).1,
            after,
        ) by {
            if f < functions.len() - 1 {
                assert(front[f].body[i] == functions[f].body[i]);
                lemma_covered_inst_grows(functions[f].body[i].1, middle, after);
            }
        }
    }
}

/// Notes the stack accesses of an expression, and says whether all stay within
/// their cells.
fn stack_ranges_expr(expr: &IRExpr, widths: &mut Table<i64, usize>) -> (res: bool)
    ensures
        res == (widths_with(*expr, old(widths)@) is Some),
        res ==> final(widths)@ == widths_with(*expr, old(widths)@)->0,
    decreases expr,
{
    match expr {
        IRExpr::Stack { offset, size } => {
            let base: i64 = match stack_base(*offset, *size) {
                Some(base) => base,
                None => return false,
            };
            let extent: usize = (*offset - base) as usize + *size;
            match widths.get(base) {
                Some(width) => {
                    if *width >= extent {
                        return true;
                    }
                },
                None => {},
            }
            widths.insert(base, extent);
            true
        },
        IRExpr::BinOp { lhs, rhs, .. } => stack_ranges_expr(lhs, widths) && stack_ranges_expr(
            rhs,
            widths,
        ),
        IRExpr::Deref { address: inner, .. }
        | IRExpr::ExtractBytes { value: inner, .. }
        | IRExpr::ZeroExtend { value: inner, .. }
        | IRExpr::SignExtend { value: inner, .. }
        | IRExpr::Not(inner) => stack_ranges_expr(inner, widths),
        _ => true,
    }
}

fn stack_ranges_inst(instr: &IRInst, widths: &mut Table<i64, usize>) -> (res: bool)
    ensures
        res == (widths_with_inst(instr.model(), old(widths)@) is Some),
        res ==> final(widths)@ == widths_with_inst(instr.model(), old(widths)@)->0,
    decreases instr,
{
    match instr {
        IRInst::Assign { dest, src } => stack_ranges_expr(dest, widths) && stack_ranges_expr(
            src,
            widths,
        ),
        IRInst::SetFlagsFrom { expr, .. }
        | IRInst::Return(Some(expr))
        | IRInst::Jump(expr)
        | IRInst::AssignVariable { value: expr, .. } => stack_ranges_expr(expr, widths),
        IRInst::If { condition, then_branch, else_branch } => stack_ranges_expr(condition, widths)
            && stack_ranges_inst(then_branch, widths) && stack_ranges_inst(else_branch, widths),
        IRInst::CallSynthetic { function, arguments } => {
            let ghost all = arguments@;
            let ghost start = widths@;
            assert(all.subrange(0, 0) =~= Seq::empty());
            let mut i: usize = 0;
            while i < arguments.len()
                invariant
                    i <= arguments@.len(),
                    all == arguments@,
                    instr.model() == (InstModel::CallSynthetic {
                        function: *function,
                        arguments: all,
                    }),
                    start == old(widths)@,
                    widths_with_list(all.subrange(0, i as int), start) == Some(widths@),
                decreases arguments@.len() - i,
            {
                let ghost prefix = all.subrange(0, i + 1);
                assert(prefix.drop_last() =~= all.subrange(0, i as int));
                if !stack_ranges_expr(&arguments[i], widths) {
                    proof {
                        lemma_list_stops(all, start, i + 1);
                    }
                    return false;
                }
                i = i + 1;
            }
            assert(all.subrange(0, i as int) =~= all);
            true
        },
        _ => true,
    }
}

proof fn lemma_list_stops(list: Seq<IRExpr>, widths: Map<i64, usize>, count: int)
    requires
        0 <= count <= list.len(),
        widths_with_list(list.subrange(0, count), widths) is None,
    ensures
        widths_with_list(list, widths) is None,
    decreases list.len() - count,
{
    if count < list.len() {
        let next = list.subrange(0, count + 1);
        assert(next.drop_last() =~= list.subrange(0, count));
        lemma_list_stops(list, widths, count + 1);
    } else {
        assert(list.subrange(0, count) =~= list);
    }
}

proof fn lemma_body_stops(body: Seq<(usize, InstModel)>, widths: Map<i64, usize>, count: int)
    requires
        0 <= count <= body.len(),
        widths_with_body(body.subrange(0, count), widths) is None,
    ensures
        widths_with_body(body, widths) is None,
    decreases body.len() - count,
{
    if count < body.len() {
        let next = body.subrange(0, count + 1);
        assert(next.drop_last() =~= body.subrange(0, count));
        lemma_body_stops(body, widths, count + 1);
    } else {
        assert(body.subrange(0, count) =~= body);
    }
}

proof fn lemma_functions_stop(functions: Seq<FunctionModel>, count: int)
    requires
        0 <= count <= functions.len(),
        widths_of(functions.subrange(0, count)) is None,
    ensures
        widths_of(functions) is None,
    decreases functions.len() - count,
{
    if count < functions.len() {
        let next = functions.subrange(0, count + 1);
        assert(next.drop_last() =~= functions.subrange(0, count));
        lemma_functions_stop(functions, count + 1);
    } else {
        assert(functions.subrange(0, count) =~= functions);
    }
}

fn widen_body(body: &Vec<(usize, IRInst)>, widths: &mut Table<i64, usize>) -> (res: bool)
    ensures
        res == (widths_with_body(body_models(body@), old(widths)@) is Some),
        res ==> final(widths)@ == widths_with_body(body_models(body@), old(widths)@)->0,
{
    let ghost all = body_models(body@);
    let ghost start = widths@;
    assert(all.subrange(0, 0) =~= Seq::empty());
    let mut i: usize = 0;
    while i < body.len()
        invariant
            i <= body@.len(),
            all == body_models(body@),
            start == old(widths)@,
            widths_with_body(all.subrange(0, i as int), start) == Some(widths@),
        decreases body@.len() - i,
    {
        let ghost prefix = all.subrange(0, i + 1);
        assert(prefix.drop_last() =~= all.subrange(0, i as int));
        if !stack_ranges_inst(&body[i].1, widths) {
            proof {
                lemma_body_stops(all, start, i + 1);
            }
            return false;
        }
        i = i + 1;
    }
    assert(all.subrange(0, i as int) =~= all);
    true
}

/// The widths of the stack cells, unless an access crosses a cell.
fn collect_widths(functions: &Vec<SyntheticFunction>) -> (res: Option<Table<i64, usize>>)
    ensures
        match res {
            Some(widths) => widths_of(function_models(functions@)) == Some(widths@),
            None => widths_of(function_models(functions@)) is None,
        },
{
    let ghost all = function_models(functions@);
    let mut widths: Table<i64, usize> = Table::new();
    assert(all.subrange(0, 0) =~= Seq::empty());
    let mut i: usize = 0;
    while i < functions.len()
        invariant
            i <= functions@.len(),
            all == function_models(functions@),
            widths_of(all.subrange(0, i as int)) == Some(widths@),
        decreases functions@.len() - i,
    {
        let ghost prefix = all.subrange(0, i + 1);
        assert(prefix.drop_last() =~= all.subrange(0, i as int));
        if !widen_body(&functions[i].body, &mut widths) {
            proof {
                lemma_functions_stop(all, i + 1);
            }
            return None;
        }
        i = i + 1;
    }
    assert(all.subrange(0, i as int) =~= all);
    Some(widths)
}

// ---------------------------------------------------------------------------
// Required bytes

/// What a location has to hold for one of its bytes to be read. A stack cell is
/// handed over as a whole.
pub open spec fn extent(location: Location, byte: int, widths: Map<i64, usize>) -> usize {
    match location {
        Location::Stack(cell) => widths[cell],
        Location::Register(_) => (byte + 1) as usize,
    }
}

pub open spec fn larger(known: Option<usize>, size: usize) -> Option<usize> {
    match known {
        Some(other) => Some(
            if other >= size {
                other
            } else {
                size
            },
        ),
        None => Some(size),
    }
}

/// What a location has to hold for a range of its bytes to be read, given the
/// bytes that are defined already.
pub open spec fn contribution(
    location: Location,
    offset: int,
    count: int,
    defined: Set<Byte>,
    widths: Map<i64, usize>,
) -> Option<usize>
    decreases count,
{
    if count <= 0 {
        None
    } else {
        let before = contribution(location, offset, count - 1, defined, widths);
        let byte = offset + count - 1;
        if defined.contains(Byte { location, byte: byte as usize }) {
            before
        } else {
            larger(before, extent(location, byte, widths))
        }
    }
}

/// What a cell has to hold for a partial write to keep its other bytes.
pub open spec fn kept(
    cell: i64,
    offset: int,
    size: int,
    count: int,
    defined: Set<Byte>,
    widths: Map<i64, usize>,
) -> Option<usize>
    decreases count,
{
    if count <= 0 {
        None
    } else {
        let before = kept(cell, offset, size, count - 1, defined, widths);
        let byte = count - 1;
        if offset <= byte < offset + size || defined.contains(
            Byte { location: Location::Stack(cell), byte: byte as usize },
        ) {
            before
        } else {
            larger(before, widths[cell])
        }
    }
}

/// The requirements with one more.
pub open spec fn demanding(
    required: Map<Location, usize>,
    location: Location,
    size: Option<usize>,
) -> Map<Location, usize> {
    match size {
        None => required,
        Some(size) => required.insert(
            location,
            if required.dom().contains(location) && required[location] >= size {
                required[location]
            } else {
                size
            },
        ),
    }
}

/// The requirements with those of reading an expression.
pub open spec fn reading(
    expr: IRExpr,
    defined: Set<Byte>,
    required: Map<Location, usize>,
    widths: Map<i64, usize>,
) -> Map<Location, usize>
    decreases expr,
{
    match expr {
        IRExpr::Reg(register) => {
            let location = Location::Register(register.full());
            demanding(
                required,
                location,
                contribution(
                    location,
                    byte_offset(register) as int,
                    register.width() as int,
                    defined,
                    widths,
                ),
            )
        },
        IRExpr::Stack { offset, size } => {
            let location = Location::Stack(cell_of(offset));
            demanding(
                required,
                location,
                contribution(location, offset as int % 8, size as int, defined, widths),
            )
        },
        IRExpr::BinOp { lhs, rhs, .. } => reading(
            *rhs,
            defined,
            reading(*lhs, defined, required, widths),
            widths,
        ),
        IRExpr::Deref { address: inner, .. }
        | IRExpr::ExtractBytes { value: inner, .. }
        | IRExpr::ZeroExtend { value: inner, .. }
        | IRExpr::SignExtend { value: inner, .. }
        | IRExpr::Not(inner) => reading(*inner, defined, required, widths),
        _ => required,
    }
}

/// The defined bytes with a range of a location.
pub open spec fn defining(
    defined: Set<Byte>,
    location: Location,
    offset: int,
    size: int,
) -> Set<Byte> {
    Set::new(
        |b: Byte|
            defined.contains(b) || (b.location == location && offset <= b.byte < offset + size),
    )
}

/// The requirements with those of a called function, as far as its locations are
/// among `seen`.
pub open spec fn calling(
    required: Map<Location, usize>,
    callee: Map<Location, usize>,
    seen: Set<Location>,
    defined: Set<Byte>,
    widths: Map<i64, usize>,
) -> Map<Location, usize> {
    let wanted = |l: Location|
        if callee.dom().contains(l) && seen.contains(l) {
            contribution(l, 0, callee[l] as int, defined, widths)
        } else {
            None
        };
    Map::new(
        |l: Location| required.dom().contains(l) || wanted(l) is Some,
        |l: Location| demanding(required, l, wanted(l))[l],
    )
}

/// How many bytes a write to a register defines.
pub open spec fn defined_width(register: Register) -> usize {
    if 37 <= register.number <= 52 {
        register_width(full_number(register.number))
    } else {
        register.width()
    }
}

/// The defined bytes and the requirements after an instruction.
pub open spec fn after_inst(
    instr: InstModel,
    parameters: Seq<Map<Location, usize>>,
    defined: Set<Byte>,
    required: Map<Location, usize>,
    widths: Map<i64, usize>,
) -> (Set<Byte>, Map<Location, usize>)
    decreases instr,
{
    match instr {
        InstModel::Assign { dest, src } => {
            let required = reading(src, defined, required, widths);
            match dest {
                IRExpr::Reg(register) => (
                    defining(
                        defined,
                        Location::Register(register.full()),
                        byte_offset(register) as int,
                        defined_width(register) as int,
                    ),
                    required,
                ),
                IRExpr::Stack { offset, size } => {
                    let cell = cell_of(offset);
                    let within = offset as int % 8;
                    (
                        defining(defined, Location::Stack(cell), within, size as int),
                        if size < widths[cell] {
                            demanding(
                                required,
                                Location::Stack(cell),
                                kept(
                                    cell,
                                    within,
                                    size as int,
                                    widths[cell] as int,
                                    defined,
                                    widths,
                                ),
                            )
                        } else {
                            required
                        },
                    )
                },
                _ => (defined, reading(dest, defined, required, widths)),
            }
        },
        InstModel::SetFlagsFrom { expr, .. }
        | InstModel::Return(Some(expr))
        | InstModel::Jump(expr)
        | InstModel::AssignVariable { value: expr, .. } => (
            defined,
            reading(expr, defined, required, widths),
        ),
        InstModel::If { condition, then_branch, else_branch } => {
            let first = reading(condition, defined, required, widths);
            let second = after_inst(*then_branch, parameters, defined, first, widths).1;
            (defined, after_inst(*else_branch, parameters, defined, second, widths).1)
        },
        InstModel::CallSynthetic { function, .. } => (
            defined,
            calling(
                required,
                parameters[function.id as int],
                Set::full(),
                defined,
                widths,
            ),
        ),
        _ => (defined, required),
    }
}

pub open spec fn after_body(
    body: Seq<(usize, InstModel)>,
    parameters: Seq<Map<Location, usize>>,
    widths: Map<i64, usize>,
) -> (Set<Byte>, Map<Location, usize>)
    decreases body.len(),
{
    if body.len() == 0 {
        (Set::empty(), Map::empty())
    } else {
        let before = after_body(body.drop_last(), parameters, widths);
        after_inst(body.last().1, parameters, before.0, before.1, widths)
    }
}

/// What each function needs, if its callees need what `parameters` says.
pub open spec fn needs(
    functions: Seq<FunctionModel>,
    parameters: Seq<Map<Location, usize>>,
    widths: Map<i64, usize>,
) -> Seq<Map<Location, usize>> {
    Seq::new(functions.len(), |i: int| after_body(functions[i].body, parameters, widths).1)
}

/// What each function needs by chains of at most `count` calls.
pub open spec fn needs_within(
    functions: Seq<FunctionModel>,
    widths: Map<i64, usize>,
    count: nat,
) -> Seq<Map<Location, usize>>
    decreases count,
{
    if count == 0 {
        Seq::new(functions.len(), |i: int| Map::empty())
    } else {
        needs(functions, needs_within(functions, widths, (count - 1) as nat), widths)
    }
}

/// Whether longer chains of calls need nothing more.
pub open spec fn is_settled(
    functions: Seq<FunctionModel>,
    widths: Map<i64, usize>,
    parameters: Seq<Map<Location, usize>>,
) -> bool {
    &&& needs(functions, parameters, widths) == parameters
    &&& exists|count: nat| #[trigger] needs_within(functions, widths, count) == parameters
}

/// What each function needs, however long the chains of calls are.
pub open spec fn settled(functions: Seq<FunctionModel>, widths: Map<i64, usize>) -> Seq<
    Map<Location, usize>,
> {
    choose|parameters: Seq<Map<Location, usize>>| is_settled(functions, widths, parameters)
}

proof fn lemma_settled_stays(
    functions: Seq<FunctionModel>,
    widths: Map<i64, usize>,
    count: nat,
    later: nat,
)
    requires
        count <= later,
        needs(functions, needs_within(functions, widths, count), widths) == needs_within(
            functions,
            widths,
            count,
        ),
    ensures
        needs_within(functions, widths, later) == needs_within(functions, widths, count),
    decreases later,
{
    if count < later {
        lemma_settled_stays(functions, widths, count, (later - 1) as nat);
    }
}

/// There is only one answer to what the functions need.
pub proof fn law_needs_are_unique(
    functions: Seq<FunctionModel>,
    widths: Map<i64, usize>,
    a: Seq<Map<Location, usize>>,
    b: Seq<Map<Location, usize>>,
)
    requires
        is_settled(functions, widths, a),
        is_settled(functions, widths, b),
    ensures
        a == b,
{
    let n = choose|count: nat| #[trigger] needs_within(functions, widths, count) == a;
    let m = choose|count: nat| #[trigger] needs_within(functions, widths, count) == b;
    if n <= m {
        lemma_settled_stays(functions, widths, n, m);
    } else {
        lemma_settled_stays(functions, widths, m, n);
    }
}

// ---------------------------------------------------------------------------
// Requirements only grow

pub open spec fn at_most(low: Map<Location, usize>, high: Map<Location, usize>) -> bool {
    forall|l: Location| #[trigger]
        low.dom().contains(l) ==> high.dom().contains(l) && low[l] <= high[l]
}

pub open spec fn all_at_most(
    low: Seq<Map<Location, usize>>,
    high: Seq<Map<Location, usize>>,
) -> bool {
    &&& low.len() == high.len()
    &&& forall|i: int| 0 <= i < low.len() ==> at_most(#[trigger] low[i], high[i])
}

spec fn smaller(low: Option<usize>, high: Option<usize>) -> bool {
    match (low, high) {
        (None, _) => true,
        (Some(a), Some(b)) => a <= b,
        _ => false,
    }
}

proof fn lemma_contribution_grows(
    location: Location,
    low: int,
    high: int,
    defined: Set<Byte>,
    widths: Map<i64, usize>,
)
    requires
        low <= high,
    ensures
        smaller(
            contribution(location, 0, low, defined, widths),
            contribution(location, 0, high, defined, widths),
        ),
    decreases high,
{
    if low < high && high > 0 {
        lemma_contribution_grows(location, low, high - 1, defined, widths);
    }
}

proof fn lemma_demanding_grows(
    low: Map<Location, usize>,
    high: Map<Location, usize>,
    location: Location,
    a: Option<usize>,
    b: Option<usize>,
)
    requires
        at_most(low, high),
        smaller(a, b),
    ensures
        at_most(demanding(low, location, a), demanding(high, location, b)),
{
}

proof fn lemma_reading_grows(
    expr: IRExpr,
    defined: Set<Byte>,
    low: Map<Location, usize>,
    high: Map<Location, usize>,
    widths: Map<i64, usize>,
)
    requires
        at_most(low, high),
    ensures
        at_most(reading(expr, defined, low, widths), reading(expr, defined, high, widths)),
    decreases expr,
{
    match expr {
        IRExpr::Reg(register) => {
            let location = Location::Register(register.full());
            let size = contribution(
                location,
                byte_offset(register) as int,
                register.width() as int,
                defined,
                widths,
            );
            lemma_demanding_grows(low, high, location, size, size);
        },
        IRExpr::Stack { offset, size } => {
            let location = Location::Stack(cell_of(offset));
            let wanted = contribution(location, offset as int % 8, size as int, defined, widths);
            lemma_demanding_grows(low, high, location, wanted, wanted);
        },
        IRExpr::BinOp { lhs, rhs, .. } => {
            lemma_reading_grows(*lhs, defined, low, high, widths);
            lemma_reading_grows(
                *rhs,
                defined,
                reading(*lhs, defined, low, widths),
                reading(*lhs, defined, high, widths),
                widths,
            );
        },
        IRExpr::Deref { address: inner, .. }
        | IRExpr::ExtractBytes { value: inner, .. }
        | IRExpr::ZeroExtend { value: inner, .. }
        | IRExpr::SignExtend { value: inner, .. }
        | IRExpr::Not(inner) => {
            lemma_reading_grows(*inner, defined, low, high, widths);
        },
        _ => {},
    }
}

proof fn lemma_inst_grows(
    instr: InstModel,
    lower: Seq<Map<Location, usize>>,
    higher: Seq<Map<Location, usize>>,
    defined: Set<Byte>,
    low: Map<Location, usize>,
    high: Map<Location, usize>,
    widths: Map<i64, usize>,
)
    requires
        calls_within(instr, lower.len() as int),
        all_at_most(lower, higher),
        at_most(low, high),
    ensures
        after_inst(instr, lower, defined, low, widths).0 == after_inst(
            instr,
            higher,
            defined,
            high,
            widths,
        ).0,
        at_most(
            after_inst(instr, lower, defined, low, widths).1,
            after_inst(instr, higher, defined, high, widths).1,
        ),
    decreases instr,
{
    match instr {
        InstModel::Assign { dest, src } => {
            lemma_reading_grows(src, defined, low, high, widths);
            let low2 = reading(src, defined, low, widths);
            let high2 = reading(src, defined, high, widths);
            match dest {
                IRExpr::Reg(_) => {},
                IRExpr::Stack { offset, size } => {
                    let cell = cell_of(offset);
                    let wanted = kept(
                        cell,
                        offset as int % 8,
                        size as int,
                        widths[cell] as int,
                        defined,
                        widths,
                    );
                    lemma_demanding_grows(low2, high2, Location::Stack(cell), wanted, wanted);
                },
                _ => {
                    lemma_reading_grows(dest, defined, low2, high2, widths);
                },
            }
        },
        InstModel::SetFlagsFrom { expr, .. }
        | InstModel::Return(Some(expr))
        | InstModel::Jump(expr)
        | InstModel::AssignVariable { value: expr, .. } => {
            lemma_reading_grows(expr, defined, low, high, widths);
        },
        InstModel::If { condition, then_branch, else_branch } => {
            lemma_reading_grows(condition, defined, low, high, widths);
            let low2 = reading(condition, defined, low, widths);
            let high2 = reading(condition, defined, high, widths);
            lemma_inst_grows(*then_branch, lower, higher, defined, low2, high2, widths);
            let low3 = after_inst(*then_branch, lower, defined, low2, widths).1;
            let high3 = after_inst(*then_branch, higher, defined, high2, widths).1;
            lemma_inst_grows(*else_branch, lower, higher, defined, low3, high3, widths);
        },
        InstModel::CallSynthetic { function, .. } => {
            let a = lower[function.id as int];
            let b = higher[function.id as int];
            assert(at_most(a, b));
            assert forall|l: Location| #[trigger]
                calling(low, a, Set::full(), defined, widths).dom().contains(l) implies calling(
                high,
                b,
                Set::full(),
                defined,
                widths,
            ).dom().contains(l) && calling(low, a, Set::full(), defined, widths)[l] <= calling(
                high,
                b,
                Set::full(),
                defined,
                widths,
            )[l] by {
                if a.dom().contains(l) {
                    lemma_contribution_grows(l, a[l] as int, b[l] as int, defined, widths);
                }
            }
        },
        _ => {},
    }
}

proof fn lemma_body_grows(
    body: Seq<(usize, InstModel)>,
    lower: Seq<Map<Location, usize>>,
    higher: Seq<Map<Location, usize>>,
    widths: Map<i64, usize>,
)
    requires
        body_calls_within(body, lower.len() as int),
        all_at_most(lower, higher),
    ensures
        after_body(body, lower, widths).0 == after_body(body, higher, widths).0,
        at_most(after_body(body, lower, widths).1, after_body(body, higher, widths).1),
    decreases body.len(),
{
    if body.len() > 0 {
        let front = body.drop_last();
        assert forall|i: int| 0 <= i < front.len() implies calls_within(
            (#[trigger] front[i]).1,
            lower.len() as int,
        ) by {
            assert(front[i] == body[i]);
        }
        lemma_body_grows(front, lower, higher, widths);
        let a = after_body(front, lower, widths);
        let b = after_body(front, higher, widths);
        assert(calls_within(body[body.len() - 1].1, lower.len() as int));
        lemma_inst_grows(body.last().1, lower, higher, a.0, a.1, b.1, widths);
    }
}

proof fn lemma_needs_grow(
    functions: Seq<FunctionModel>,
    lower: Seq<Map<Location, usize>>,
    higher: Seq<Map<Location, usize>>,
    widths: Map<i64, usize>,
)
    requires
        functions_linked(functions, functions.len() as int),
        lower.len() == functions.len(),
        all_at_most(lower, higher),
    ensures
        all_at_most(needs(functions, lower, widths), needs(functions, higher, widths)),
{
    let a = needs(functions, lower, widths);
    let b = needs(functions, higher, widths);
    assert forall|i: int| 0 <= i < a.len() implies at_most(#[trigger] a[i], b[i]) by {
        lemma_body_grows(functions[i].body, lower, higher, widths);
    }
}

proof fn lemma_longer_chains_need_more(
    functions: Seq<FunctionModel>,
    widths: Map<i64, usize>,
    count: nat,
)
    requires
        functions_linked(functions, functions.len() as int),
    ensures
        needs_within(functions, widths, count).len() == functions.len(),
        all_at_most(
            needs_within(functions, widths, count),
            needs_within(functions, widths, count + 1),
        ),
    decreases count,
{
    if count > 0 {
        let before = (count - 1) as nat;
        lemma_longer_chains_need_more(functions, widths, before);
        lemma_needs_grow(
            functions,
            needs_within(functions, widths, before),
            needs_within(functions, widths, count),
            widths,
        );
    }
}

// ---------------------------------------------------------------------------
// Requirements are bounded

/// Whether every requirement is of a cell or of a register, and of few bytes.
spec fn bounded(required: Map<Location, usize>, widths: Map<i64, usize>) -> bool {
    forall|l: Location| #[trigger]
        required.dom().contains(l) ==> required[l] <= 1025 && (l matches Location::Stack(cell)
            ==> widths.dom().contains(cell))
}

spec fn weight(required: Map<Location, usize>, location: Location) -> nat {
    if required.dom().contains(location) {
        (required[location] + 1) as nat
    } else {
        0
    }
}

spec fn total(required: Map<Location, usize>, places: Seq<Location>) -> nat
    decreases places.len(),
{
    if places.len() == 0 {
        0
    } else {
        total(required, places.drop_last()) + weight(required, places.last())
    }
}

proof fn lemma_total_bounded(
    required: Map<Location, usize>,
    places: Seq<Location>,
    widths: Map<i64, usize>,
)
    requires
        bounded(required, widths),
    ensures
        total(required, places) <= 1026 * places.len(),
    decreases places.len(),
{
    if places.len() > 0 {
        lemma_total_bounded(required, places.drop_last(), widths);
    }
}

proof fn lemma_total_grows(
    low: Map<Location, usize>,
    high: Map<Location, usize>,
    places: Seq<Location>,
)
    requires
        at_most(low, high),
    ensures
        total(low, places) <= total(high, places),
        (exists|k: int|
            0 <= k < places.len() && weight(low, #[trigger] places[k]) < weight(high, places[k]))
            ==> total(low, places) < total(high, places),
    decreases places.len(),
{
    if places.len() > 0 {
        let front = places.drop_last();
        lemma_total_grows(low, high, front);
        if exists|k: int|
            0 <= k < places.len() && weight(low, #[trigger] places[k]) < weight(high, places[k]) {
            let k = choose|k: int|
                0 <= k < places.len() && weight(low, #[trigger] places[k]) < weight(
                    high,
                    places[k],
                );
            if k < places.len() - 1 {
                assert(front[k] == places[k]);
            }
        }
    }
}

spec fn grand_total(required: Seq<Map<Location, usize>>, places: Seq<Location>) -> nat
    decreases required.len(),
{
    if required.len() == 0 {
        0
    } else {
        grand_total(required.drop_last(), places) + total(required.last(), places)
    }
}

proof fn lemma_grand_total_bounded(
    required: Seq<Map<Location, usize>>,
    places: Seq<Location>,
    widths: Map<i64, usize>,
)
    requires
        forall|i: int| 0 <= i < required.len() ==> bounded(#[trigger] required[i], widths),
    ensures
        grand_total(required, places) <= required.len() * (1026 * places.len()),
    decreases required.len(),
{
    if required.len() > 0 {
        let front = required.drop_last();
        assert forall|i: int| 0 <= i < front.len() implies bounded(#[trigger] front[i], widths) by {
            assert(front[i] == required[i]);
        }
        lemma_grand_total_bounded(front, places, widths);
        assert(bounded(required[required.len() - 1], widths));
        lemma_total_bounded(required.last(), places, widths);
        let each: int = (1026 * places.len()) as int;
        assert(required.len() * each == front.len() * each + each) by (nonlinear_arith)
            requires
                front.len() + 1 == required.len(),
        ;
    }
}

proof fn lemma_grand_total_grows(
    low: Seq<Map<Location, usize>>,
    high: Seq<Map<Location, usize>>,
    places: Seq<Location>,
    at: int,
    k: int,
)
    requires
        all_at_most(low, high),
        0 <= at < low.len() ==> 0 <= k < places.len() && weight(low[at], places[k]) < weight(
            high[at],
            places[k],
        ),
    ensures
        grand_total(low, places) <= grand_total(high, places),
        0 <= at < low.len() ==> grand_total(low, places) < grand_total(high, places),
    decreases low.len(),
{
    if low.len() > 0 {
        let last = low.len() - 1;
        assert(at_most(low[last], high[last]));
        lemma_total_grows(low[last], high[last], places);
        let low2 = low.drop_last();
        let high2 = high.drop_last();
        assert forall|i: int| 0 <= i < low2.len() implies at_most(#[trigger] low2[i], high2[i]) by {
            assert(at_most(low[i], high[i]));
        }
        if 0 <= at < last {
            assert(low2[at] == low[at] && high2[at] == high[at]);
        }
        lemma_grand_total_grows(low2, high2, places, at, k);
    }
}

/// Every place that a bounded requirement can be of.
spec fn all_places(cells: Seq<i64>) -> Seq<Location> {
    Seq::new(
        256 + cells.len(),
        |k: int|
            if k < 256 {
                Location::Register(Register { number: k as u8 })
            } else {
                Location::Stack(cells[k - 256])
            },
    )
}

proof fn lemma_place_exists(
    required: Map<Location, usize>,
    widths: Map<i64, usize>,
    cells: Seq<i64>,
    location: Location,
) -> (k: int)
    requires
        bounded(required, widths),
        required.dom().contains(location),
        forall|cell: i64| #[trigger] cells.contains(cell) <==> widths.dom().contains(cell),
    ensures
        0 <= k < all_places(cells).len(),
        all_places(cells)[k] == location,
{
    match location {
        Location::Register(register) => register.number as int,
        Location::Stack(cell) => {
            assert(cells.contains(cell));
            let i = choose|i: int| 0 <= i < cells.len() && cells[i] == cell;
            256 + i
        },
    }
}

/// Every place that there is.
spec fn every_place() -> Seq<Location> {
    all_places(
        Seq::new(0x1_0000_0000_0000_0000, |i: int| (i - 0x8000_0000_0000_0000) as i64),
    )
}

proof fn lemma_every_place(location: Location) -> (k: int)
    ensures
        0 <= k < every_place().len(),
        every_place()[k] == location,
{
    match location {
        Location::Register(register) => {
            assert(Register { number: register.number as int as u8 } == register);
            register.number as int
        },
        Location::Stack(cell) => {
            let i: int = cell + 0x8000_0000_0000_0000;
            assert((i - 0x8000_0000_0000_0000) as i64 == cell);
            256 + i
        },
    }
}

proof fn lemma_total_limited(required: Map<Location, usize>, places: Seq<Location>)
    ensures
        total(required, places) <= 0x1_0000_0000_0000_0000 * places.len(),
    decreases places.len(),
{
    if places.len() > 0 {
        lemma_total_limited(required, places.drop_last());
        assert(weight(required, places.last()) <= 0x1_0000_0000_0000_0000);
    }
}

proof fn lemma_grand_total_limited(required: Seq<Map<Location, usize>>, places: Seq<Location>)
    ensures
        grand_total(required, places) <= required.len() * (0x1_0000_0000_0000_0000 * places.len()),
    decreases required.len(),
{
    if required.len() > 0 {
        let front = required.drop_last();
        lemma_grand_total_limited(front, places);
        lemma_total_limited(required.last(), places);
        let each: int = (0x1_0000_0000_0000_0000 * places.len()) as int;
        assert(required.len() * each == front.len() * each + each) by (nonlinear_arith)
            requires
                front.len() + 1 == required.len(),
        ;
    }
}

proof fn lemma_needs_settle_from(
    functions: Seq<FunctionModel>,
    widths: Map<i64, usize>,
    count: nat,
)
    requires
        functions_linked(functions, functions.len() as int),
    ensures
        is_settled(functions, widths, settled(functions, widths)),
    decreases
            functions.len() * (0x1_0000_0000_0000_0000 * every_place().len()) - grand_total(
                needs_within(functions, widths, count),
                every_place(),
            ),
{
    let places = every_place();
    let low = needs_within(functions, widths, count);
    let high = needs_within(functions, widths, count + 1);
    lemma_longer_chains_need_more(functions, widths, count);
    lemma_longer_chains_need_more(functions, widths, count + 1);
    if exists|i: int, l: Location|
        0 <= i < low.len() && #[trigger] high[i].dom().contains(l) && !(low[i].dom().contains(l)
            && low[i][l] == high[i][l]) {
        let (i, l) = choose|i: int, l: Location|
            0 <= i < low.len() && #[trigger] high[i].dom().contains(l) && !(low[i].dom().contains(
                l,
            ) && low[i][l] == high[i][l]);
        assert(at_most(low[i], high[i]));
        let k = lemma_every_place(l);
        assert(weight(low[i], places[k]) < weight(high[i], places[k]));
        lemma_grand_total_grows(low, high, places, i, k);
        lemma_grand_total_limited(high, places);
        lemma_needs_settle_from(functions, widths, count + 1);
    } else {
        assert forall|i: int| 0 <= i < low.len() implies #[trigger] low[i] == high[i] by {
            assert(at_most(low[i], high[i]));
            assert(low[i].dom() =~= high[i].dom());
            assert(low[i] =~= high[i]);
        }
        assert(low =~= high);
        assert(is_settled(functions, widths, low));
    }
}

/// Some chains of calls are so long that longer ones need nothing more, where every
/// call names a function.
pub proof fn law_needs_settle(functions: Seq<FunctionModel>, widths: Map<i64, usize>)
    requires
        functions_linked(functions, functions.len() as int),
    ensures
        is_settled(functions, widths, settled(functions, widths)),
{
    lemma_needs_settle_from(functions, widths, 0);
}

// ---------------------------------------------------------------------------
// Collecting

proof fn lemma_contribution_bounded(
    location: Location,
    offset: int,
    count: int,
    defined: Set<Byte>,
    widths: Map<i64, usize>,
)
    requires
        0 <= offset,
        count <= 1025,
        offset + count <= 1025,
        location matches Location::Stack(cell) ==> widths.dom().contains(cell) && widths[cell]
            <= 1025,
    ensures
        contribution(location, offset, count, defined, widths) matches Some(size) ==> size <= 1025,
    decreases count,
{
    if count > 0 {
        lemma_contribution_bounded(location, offset, count - 1, defined, widths);
    }
}

fn require_bytes(
    location: Location,
    offset: usize,
    size: usize,
    defined: &KeySet<Byte>,
    widths: &Table<i64, usize>,
) -> (res: Option<usize>)
    requires
        offset + size <= 1025,
        narrow(widths@),
        location matches Location::Stack(cell) ==> widths@.dom().contains(cell),
    ensures
        res == contribution(location, offset as int, size as int, defined@, widths@),
        res matches Some(size) ==> size <= 1025,
{
    let mut res: Option<usize> = None;
    let mut count: usize = 0;
    while count < size
        invariant
            count <= size,
            offset + size <= 1025,
            location matches Location::Stack(cell) ==> widths@.dom().contains(cell),
            res == contribution(location, offset as int, count as int, defined@, widths@),
        decreases size - count,
    {
        let byte: usize = offset + count;
        if !defined.contains(Byte { location, byte }) {
            let extent: usize = match location {
                Location::Stack(cell) => match widths.get(cell) {
                    Some(width) => *width,
                    None => 0,
                },
                Location::Register(_) => byte + 1,
            };
            res = match res {
                Some(known) => Some(
                    if known >= extent {
                        known
                    } else {
                        extent
                    },
                ),
                None => Some(extent),
            };
        }
        count = count + 1;
    }
    proof {
        lemma_contribution_bounded(location, offset as int, size as int, defined@, widths@);
    }
    res
}

fn demand(required: &mut Table<Location, usize>, location: Location, size: Option<usize>)
    ensures
        final(required)@ == demanding(old(required)@, location, size),
{
    if let Some(size) = size {
        let extent: usize = match required.get(location) {
            Some(known) => if *known >= size {
                *known
            } else {
                size
            },
            None => size,
        };
        required.insert(location, extent);
    }
}

fn read_expr(
    expr: &IRExpr,
    defined: &KeySet<Byte>,
    required: &mut Table<Location, usize>,
    widths: &Table<i64, usize>,
)
    requires
        covered(*expr, widths@),
        narrow(widths@),
        bounded(old(required)@, widths@),
    ensures
        final(required)@ == reading(*expr, defined@, old(required)@, widths@),
        bounded(final(required)@, widths@),
    decreases expr,
{
    match expr {
        IRExpr::Reg(register) => {
            let location: Location = Location::Register(register.full_register());
            let size: Option<usize> = require_bytes(
                location,
                register_offset(*register),
                register.size(),
                defined,
                widths,
            );
            demand(required, location, size);
        },
        IRExpr::Stack { offset, size } => {
            if let Some(base) = stack_base(*offset, *size) {
                let location: Location = Location::Stack(base);
                let wanted: Option<usize> = require_bytes(
                    location,
                    (*offset - base) as usize,
                    *size,
                    defined,
                    widths,
                );
                demand(required, location, wanted);
            }
        },
        IRExpr::BinOp { lhs, rhs, .. } => {
            read_expr(lhs, defined, required, widths);
            read_expr(rhs, defined, required, widths);
        },
        IRExpr::Deref { address: inner, .. }
        | IRExpr::ExtractBytes { value: inner, .. }
        | IRExpr::ZeroExtend { value: inner, .. }
        | IRExpr::SignExtend { value: inner, .. }
        | IRExpr::Not(inner) => read_expr(inner, defined, required, widths),
        _ => {},
    }
}

fn define(location: Location, offset: usize, size: usize, defined: &mut KeySet<Byte>)
    requires
        offset + size <= 1025,
    ensures
        final(defined)@ == defining(old(defined)@, location, offset as int, size as int),
{
    let ghost start = defined@;
    let mut count: usize = 0;
    assert(defined@ =~= defining(start, location, offset as int, 0));
    while count < size
        invariant
            count <= size,
            offset + size <= 1025,
            defined@ == defining(start, location, offset as int, count as int),
        decreases size - count,
    {
        let byte: usize = offset + count;
        defined.insert(Byte { location, byte });
        count = count + 1;
        assert(defined@ =~= defining(start, location, offset as int, count as int));
    }
}

/// What a cell has to hold for a write to part of it.
fn kept_bytes(
    cell: i64,
    offset: usize,
    size: usize,
    width: usize,
    defined: &KeySet<Byte>,
    Ghost(widths): Ghost<Map<i64, usize>>,
) -> (res: Option<usize>)
    requires
        offset + size <= 8,
        width <= 8,
        width == widths[cell],
    ensures
        res == kept(cell, offset as int, size as int, width as int, defined@, widths),
        res matches Some(size) ==> size == width,
{
    let location: Location = Location::Stack(cell);
    let mut res: Option<usize> = None;
    let mut byte: usize = 0;
    while byte < width
        invariant
            byte <= width,
            location == Location::Stack(cell),
            offset + size <= 8,
            width == widths[cell],
            res == kept(cell, offset as int, size as int, byte as int, defined@, widths),
            res matches Some(size) ==> size == width,
        decreases width - byte,
    {
        if !(offset <= byte && byte < offset + size) && !defined.contains(Byte { location, byte }) {
            res = Some(width);
        }
        byte = byte + 1;
    }
    res
}

pub open spec fn tables(parameters: Seq<Table<Location, usize>>) -> Seq<Map<Location, usize>> {
    parameters.map_values(|t: Table<Location, usize>| t@)
}

/// Adds what a called function needs.
fn read_call(
    callee: &Table<Location, usize>,
    defined: &KeySet<Byte>,
    required: &mut Table<Location, usize>,
    widths: &Table<i64, usize>,
)
    requires
        narrow(widths@),
        bounded(old(required)@, widths@),
        bounded(callee@, widths@),
    ensures
        final(required)@ == calling(
            old(required)@,
            callee@,
            Set::full(),
            defined@,
            widths@,
        ),
        bounded(final(required)@, widths@),
{
    let ghost start = required@;
    let keys: Vec<Location> = callee.keys();
    let ghost mut seen: Set<Location> = Set::empty();
    assert(required@ =~= calling(start, callee@, seen, defined@, widths@));
    let mut i: usize = 0;
    while i < keys.len()
        invariant
            i <= keys@.len(),
            narrow(widths@),
            bounded(required@, widths@),
            bounded(callee@, widths@),
            forall|k: Location| #[trigger] keys@.contains(k) <==> callee@.dom().contains(k),
            forall|k: int| 0 <= k < i ==> seen.contains(#[trigger] keys@[k]),
            required@ == calling(start, callee@, seen, defined@, widths@),
        decreases keys@.len() - i,
    {
        let location: Location = keys[i];
        assert(keys@.contains(location));
        if let Some(size) = callee.get(location) {
            let wanted: Option<usize> = require_bytes(location, 0, *size, defined, widths);
            demand(required, location, wanted);
            proof {
                let before = calling(start, callee@, seen, defined@, widths@);
                let after = calling(start, callee@, seen.insert(location), defined@, widths@);
                assert(required@ == demanding(before, location, wanted));
                assert(required@.dom() =~= after.dom());
                assert forall|l: Location| #[trigger] required@.dom().contains(
                    l,
                ) implies required@[l]
                    == after[l] by {}
                assert(required@ =~= after);
                seen = seen.insert(location);
            }
        }
        i = i + 1;
    }
    proof {
        let full = calling(start, callee@, Set::full(), defined@, widths@);
        assert forall|l: Location| callee@.dom().contains(
            l,
        ) implies #[trigger] seen.contains(l) by {
            assert(keys@.contains(l));
            let k = choose|k: int| 0 <= k < keys@.len() && keys@[k] == l;
            assert(seen.contains(keys@[k]));
        }
        assert(required@ =~= full);
    }
}

fn read_inst(
    instr: &IRInst,
    parameters: &Vec<Table<Location, usize>>,
    defined: &mut KeySet<Byte>,
    required: &mut Table<Location, usize>,
    widths: &Table<i64, usize>,
)
    requires
        covered_inst(instr.model(), widths@),
        narrow(widths@),
        bounded(old(required)@, widths@),
        calls_within(instr.model(), parameters@.len() as int),
        forall|i: int|
            0 <= i < parameters@.len() ==> bounded((#[trigger] parameters@[i])@, widths@),
    ensures
        (final(defined)@, final(required)@) == after_inst(
            instr.model(),
            tables(parameters@),
            old(defined)@,
            old(required)@,
            widths@,
        ),
        bounded(final(required)@, widths@),
    decreases instr,
{
    match instr {
        IRInst::Assign { dest, src } => {
            read_expr(src, defined, required, widths);
            match dest {
                IRExpr::Reg(register) => {
                    let size: usize = if register.is_gpr32() {
                        register.full_register().size()
                    } else {
                        register.size()
                    };
                    define(
                        Location::Register(register.full_register()),
                        register_offset(*register),
                        size,
                        defined,
                    );
                },
                IRExpr::Stack { offset, size } => {
                    if let Some(base) = stack_base(*offset, *size) {
                        let within: usize = (*offset - base) as usize;
                        if let Some(width) = widths.get(base) {
                            // A partial write preserves the rest of the cell.
                            if *size < *width {
                                let wanted: Option<usize> = kept_bytes(
                                    base,
                                    within,
                                    *size,
                                    *width,
                                    defined,
                                    Ghost(widths@),
                                );
                                demand(required, Location::Stack(base), wanted);
                            }
                        }
                        define(Location::Stack(base), within, *size, defined);
                    }
                },
                other => read_expr(other, defined, required, widths),
            }
        },
        IRInst::SetFlagsFrom { expr, .. }
        | IRInst::Return(Some(expr))
        | IRInst::Jump(expr)
        | IRInst::AssignVariable { value: expr, .. } => {
            read_expr(expr, defined, required, widths);
        },
        IRInst::If { condition, then_branch, else_branch } => {
            read_expr(condition, defined, required, widths);
            let mut then_defined: KeySet<Byte> = defined.copied();
            let mut else_defined: KeySet<Byte> = defined.copied();
            read_inst(then_branch, parameters, &mut then_defined, required, widths);
            read_inst(else_branch, parameters, &mut else_defined, required, widths);
        },
        IRInst::CallSynthetic { function, .. } => {
            assert(tables(parameters@)[function.id as int] == parameters@[function.id as int]@);
            read_call(&parameters[function.id], defined, required, widths);
        },
        _ => {},
    }
}

fn required_values(
    function: &SyntheticFunction,
    parameters: &Vec<Table<Location, usize>>,
    widths: &Table<i64, usize>,
) -> (res: Table<Location, usize>)
    requires
        narrow(widths@),
        body_calls_within(function.model().body, parameters@.len() as int),
        forall|i: int|
            0 <= i < function.model().body.len() ==> covered_inst(
                (#[trigger] function.model().body[i]).1,
                widths@,
            ),
        forall|i: int|
            0 <= i < parameters@.len() ==> bounded((#[trigger] parameters@[i])@, widths@),
    ensures
        res@ == after_body(function.model().body, tables(parameters@), widths@).1,
        bounded(res@, widths@),
{
    let ghost all = function.model().body;
    let mut defined: KeySet<Byte> = KeySet::new();
    let mut required: Table<Location, usize> = Table::new();
    assert(all.subrange(0, 0) =~= Seq::empty());
    let mut i: usize = 0;
    while i < function.body.len()
        invariant
            i <= function.body@.len(),
            all == body_models(function.body@),
            narrow(widths@),
            body_calls_within(all, parameters@.len() as int),
            forall|k: int|
                0 <= k < all.len() ==> covered_inst((#[trigger] all[k]).1, widths@),
            forall|k: int|
                0 <= k < parameters@.len() ==> bounded((#[trigger] parameters@[k])@, widths@),
            bounded(required@, widths@),
            (defined@, required@) == after_body(
                all.subrange(0, i as int),
                tables(parameters@),
                widths@,
            ),
        decreases function.body@.len() - i,
    {
        let ghost prefix = all.subrange(0, i + 1);
        assert(prefix.drop_last() =~= all.subrange(0, i as int));
        assert(all[i as int].1 == function.body@[i as int].1.model());
        read_inst(&function.body[i].1, parameters, &mut defined, &mut required, widths);
        i = i + 1;
    }
    assert(all.subrange(0, i as int) =~= all);
    required
}

/// Whether the second tables hold everything in the first, with the same sizes.
/// If not, the answer is a place where they differ.
fn first_change(
    next: &Vec<Table<Location, usize>>,
    known: &Vec<Table<Location, usize>>,
) -> (res: Option<(usize, Location)>)
    requires
        next@.len() == known@.len(),
    ensures
        match res {
            None => forall|i: int, l: Location|
                0 <= i < next@.len() && #[trigger] next@[i]@.dom().contains(l)
                    ==> known@[i]@.dom().contains(l) && known@[i]@[l] == next@[i]@[l],
            Some((i, l)) => i < next@.len() && next@[i as int]@.dom().contains(l) && !(
            known@[i as int]@.dom().contains(l) && known@[i as int]@[l] == next@[i as int]@[l]),
        },
{
    let mut i: usize = 0;
    while i < next.len()
        invariant
            i <= next@.len(),
            next@.len() == known@.len(),
            forall|k: int, l: Location|
                0 <= k < i && #[trigger] next@[k]@.dom().contains(l)
                    ==> known@[k]@.dom().contains(l) && known@[k]@[l] == next@[k]@[l],
        decreases next@.len() - i,
    {
        let keys: Vec<Location> = next[i].keys();
        let mut j: usize = 0;
        while j < keys.len()
            invariant
                i < next@.len(),
                next@.len() == known@.len(),
                j <= keys@.len(),
                forall|k: Location| #[trigger]
                    keys@.contains(k) <==> next@[i as int]@.dom().contains(k),
                forall|k: int|
                    0 <= k < j ==> known@[i as int]@.dom().contains(#[trigger] keys@[k])
                        && known@[i as int]@[keys@[k]] == next@[i as int]@[keys@[k]],
            decreases keys@.len() - j,
        {
            let location: Location = keys[j];
            assert(keys@.contains(location));
            match (next[i].get(location), known[i].get(location)) {
                (Some(a), Some(b)) => {
                    if *a != *b {
                        return Some((i, location));
                    }
                },
                _ => {
                    return Some((i, location));
                },
            }
            j = j + 1;
        }
        assert forall|l: Location| #[trigger] next@[i as int]@.dom().contains(
            l,
        ) implies known@[i as int]@.dom().contains(l) && known@[i as int]@[l]
            == next@[i as int]@[l] by {
            assert(keys@.contains(l));
            let k = choose|k: int| 0 <= k < keys@.len() && keys@[k] == l;
            assert(known@[i as int]@.dom().contains(keys@[k]));
        }
        i = i + 1;
    }
    None
}

/// What each function needs, however long the chains of calls are.
fn settle(functions: &Vec<SyntheticFunction>, widths: &Table<i64, usize>) -> (res: Vec<
    Table<Location, usize>,
>)
    requires
        functions_linked(function_models(functions@), functions@.len() as int),
        narrow(widths@),
        all_covered(function_models(functions@), widths@),
    ensures
        res@.len() == functions@.len(),
        tables(res@) == settled(function_models(functions@), widths@),
        is_settled(function_models(functions@), widths@, tables(res@)),
{
    let ghost models = function_models(functions@);
    let cells: Vec<i64> = widths.keys();
    let ghost places = all_places(cells@);
    let total: usize = functions.len();
    let mut parameters: Vec<Table<Location, usize>> = Vec::new();
    let mut i: usize = 0;
    while i < total
        invariant
            i <= total,
            parameters@.len() == i,
            forall|k: int|
                0 <= k < i ==> (#[trigger] parameters@[k])@ == Map::<Location, usize>::empty(),
        decreases total - i,
    {
        parameters.push(Table::new());
        i = i + 1;
    }
    let ghost mut count: nat = 0;
    assert(tables(parameters@) =~= needs_within(models, widths@, 0));
    loop
        invariant
            total == functions@.len(),
            models == function_models(functions@),
            functions_linked(models, total as int),
            narrow(widths@),
            all_covered(models, widths@),
            places == all_places(cells@),
            forall|cell: i64| #[trigger] cells@.contains(cell) <==> widths@.dom().contains(cell),
            parameters@.len() == total,
            tables(parameters@) == needs_within(models, widths@, count),
            forall|k: int|
                0 <= k < total ==> bounded((#[trigger] parameters@[k])@, widths@),
        decreases total * (1026 * places.len()) - grand_total(tables(parameters@), places),
    {
        let mut next: Vec<Table<Location, usize>> = Vec::new();
        let mut j: usize = 0;
        while j < total
            invariant
                j <= total,
                total == functions@.len(),
                models == function_models(functions@),
                functions_linked(models, total as int),
                narrow(widths@),
                all_covered(models, widths@),
                parameters@.len() == total,
                forall|k: int|
                    0 <= k < total ==> bounded((#[trigger] parameters@[k])@, widths@),
                next@.len() == j,
                forall|k: int|
                    0 <= k < j ==> bounded((#[trigger] next@[k])@, widths@) && next@[k]@
                        == after_body(models[k].body, tables(parameters@), widths@).1,
            decreases total - j,
        {
            assert(models[j as int] == functions@[j as int].model());
            next.push(required_values(&functions[j], &parameters, widths));
            j = j + 1;
        }
        let ghost low = tables(parameters@);
        let ghost high = tables(next@);
        proof {
            assert(high =~= needs(models, low, widths@));
            assert(high == needs_within(models, widths@, count + 1));
            lemma_longer_chains_need_more(models, widths@, count);
            assert(all_at_most(low, high));
        }
        let change: Option<(usize, Location)> = first_change(&next, &parameters);
        match change {
            None => {
                proof {
                    assert forall|k: int| 0 <= k < total implies #[trigger] low[k] == high[k] by {
                        assert(at_most(low[k], high[k]));
                        assert(low[k] == parameters@[k]@ && high[k] == next@[k]@);
                        assert(low[k].dom() =~= high[k].dom());
                        assert(low[k] =~= high[k]);
                    }
                    assert(low =~= high);
                    assert(is_settled(models, widths@, low));
                    law_needs_are_unique(models, widths@, low, settled(models, widths@));
                }
                return parameters;
            },
            Some((at, location)) => {
                proof {
                    let a = at as int;
                    assert(low[a] == parameters@[a]@ && high[a] == next@[a]@);
                    assert(at_most(low[a], high[a]));
                    let k = lemma_place_exists(high[a], widths@, cells@, location);
                    assert(weight(low[a], places[k]) < weight(high[a], places[k]));
                    lemma_grand_total_grows(low, high, places, a, k);
                    assert forall|i: int| 0 <= i < high.len() implies bounded(
                        #[trigger] high[i],
                        widths@,
                    ) by {
                        assert(high[i] == next@[i]@);
                    }
                    lemma_grand_total_bounded(high, places, widths@);
                    count = count + 1;
                }
                parameters = next;
            },
        }
    }
}

// ---------------------------------------------------------------------------
// Handing the values over

/// Whether the list holds the locations in order, each once.
pub open spec fn is_listing(list: Seq<Location>, places: Set<Location>) -> bool {
    &&& forall|i: int, j: int| 0 <= i < j < list.len() ==> (#[trigger] list[i]).before(
        #[trigger] list[j],
    )
    &&& forall|l: Location| #[trigger] list.contains(l) <==> places.contains(l)
}

/// The locations in order.
pub open spec fn listing(places: Set<Location>) -> Seq<Location> {
    choose|list: Seq<Location>| is_listing(list, places)
}

/// There is only one list of some locations in order.
pub proof fn law_listing_is_unique(a: Seq<Location>, b: Seq<Location>, places: Set<Location>)
    requires
        is_listing(a, places),
        is_listing(b, places),
    ensures
        a == b,
    decreases a.len(),
{
    if a.len() == 0 {
        if b.len() > 0 {
            assert(b.contains(b[0]));
            assert(a.contains(b[0]));
        }
        assert(a =~= b);
    } else {
        assert(a.contains(a[0]));
        assert(b.contains(a[0]));
        let i = choose|i: int| 0 <= i < b.len() && b[i] == a[0];
        assert(b.contains(b[0]));
        assert(a.contains(b[0]));
        let j = choose|j: int| 0 <= j < a.len() && a[j] == b[0];
        if i > 0 {
            assert(b[0].before(b[i]));
            if j > 0 {
                assert(a[0].before(a[j]));
            }
            assert(false);
        }
        let first = a[0];
        let a2 = a.subrange(1, a.len() as int);
        let b2 = b.subrange(1, b.len() as int);
        lemma_listing_rest(a, places);
        lemma_listing_rest(b, places);
        law_listing_is_unique(a2, b2, places.remove(first));
        assert(a =~= seq![first] + a2);
        assert(b =~= seq![first] + b2);
    }
}

proof fn lemma_listing_rest(list: Seq<Location>, places: Set<Location>)
    requires
        is_listing(list, places),
        list.len() > 0,
    ensures
        is_listing(list.subrange(1, list.len() as int), places.remove(list[0])),
{
    let rest = list.subrange(1, list.len() as int);
    assert forall|l: Location| #[trigger] rest.contains(l) <==> places.remove(list[0]).contains(
        l,
    ) by {
        if rest.contains(l) {
            let k = choose|k: int| 0 <= k < rest.len() && rest[k] == l;
            assert(list[k + 1] == l);
            assert(list.contains(l));
            assert(list[0].before(list[k + 1]));
        }
        if places.remove(list[0]).contains(l) {
            assert(list.contains(l));
            let k = choose|k: int| 0 <= k < list.len() && list[k] == l;
            assert(rest[k - 1] == l);
        }
    }
}

proof fn lemma_listing_joined(first: Location, rest: Seq<Location>, places: Set<Location>)
    requires
        is_listing(rest, places),
        forall|l: Location| #[trigger] places.contains(l) ==> first.before(l),
    ensures
        is_listing(seq![first] + rest, places.insert(first)),
{
    let list = seq![first] + rest;
    assert forall|i: int, j: int| 0 <= i < j < list.len() implies (#[trigger] list[i]).before(
        #[trigger] list[j],
    ) by {
        assert(rest.contains(rest[j - 1]));
        if i > 0 {
            assert(rest[i - 1].before(rest[j - 1]));
        }
    }
    assert forall|l: Location| #[trigger] list.contains(l) <==> places.insert(first).contains(
        l,
    ) by {
        if list.contains(l) {
            let k = choose|k: int| 0 <= k < list.len() && list[k] == l;
            if k > 0 {
                assert(rest[k - 1] == l);
                assert(rest.contains(l));
            }
        }
        if places.insert(first).contains(l) {
            if l == first {
                assert(list[0] == l);
            } else {
                assert(rest.contains(l));
                let k = choose|k: int| 0 <= k < rest.len() && rest[k] == l;
                assert(list[k + 1] == l);
            }
        }
    }
}

/// Where a new location goes in a list.
proof fn lemma_listing_inserted(list: Seq<Location>, places: Set<Location>, new: Location) -> (res:
    Seq<Location>)
    requires
        is_listing(list, places),
        !places.contains(new),
    ensures
        is_listing(res, places.insert(new)),
    decreases list.len(),
{
    assert forall|l: Location| list.len() > 0 && places.contains(l) && l != list[0] implies
        list[0].before(l) by {
        assert(list.contains(l));
        let k = choose|k: int| 0 <= k < list.len() && list[k] == l;
        assert(list[0].before(list[k]));
    }
    if list.len() == 0 || new.before(list[0]) {
        assert forall|l: Location| #[trigger] places.contains(l) implies new.before(l) by {
            assert(list.contains(l));
        }
        lemma_listing_joined(new, list, places);
        seq![new] + list
    } else {
        let first = list[0];
        assert(list.contains(first));
        let rest = list.subrange(1, list.len() as int);
        lemma_listing_rest(list, places);
        let less = places.remove(first);
        let more = lemma_listing_inserted(rest, less, new);
        assert forall|l: Location| #[trigger] less.insert(new).contains(l) implies first.before(
            l,
        ) by {
            if l != new {
                assert(places.contains(l));
            }
        }
        lemma_listing_joined(first, more, less.insert(new));
        assert(less.insert(new).insert(first) =~= places.insert(new));
        seq![first] + more
    }
}

proof fn lemma_locations_are_finite(places: Set<Location>)
    ensures
        places.finite(),
{
    let all = every_place();
    vstd::seq_lib::seq_to_set_is_finite(all);
    assert forall|l: Location| places.contains(l) implies all.to_set().contains(l) by {
        let k = lemma_every_place(l);
        assert(all[k] == l);
    }
    vstd::set_lib::lemma_len_subset(places, all.to_set());
}

/// Locations can be listed in order.
pub proof fn law_there_is_a_listing(places: Set<Location>)
    ensures
        is_listing(listing(places), places),
    decreases places.len(),
{
    lemma_locations_are_finite(places);
    if places.len() == 0 {
        assert(places =~= Set::empty());
        assert(is_listing(Seq::empty(), places));
    } else {
        let new = places.choose();
        let less = places.remove(new);
        law_there_is_a_listing(less);
        let list = lemma_listing_inserted(listing(less), less, new);
        assert(less.insert(new) =~= places);
        assert(is_listing(list, places));
    }
}

/// The register that names the low bytes of a full register: the first of that
/// width, in the order of their numbers.
pub open spec fn prefix_from(register: Register, size: usize, number: int) -> Option<Register>
    decreases 256 - number,
{
    if number >= 256 {
        None
    } else {
        let candidate = Register { number: number as u8 };
        if candidate.full() == register && candidate.width() == size && byte_offset(candidate)
            == 0 {
            Some(candidate)
        } else {
            prefix_from(register, size, number + 1)
        }
    }
}

fn prefix_register(register: Register, size: usize) -> (res: Option<Register>)
    ensures
        res == prefix_from(register, size, 0),
{
    let mut number: u16 = 0;
    while number < 256
        invariant
            number <= 256,
            prefix_from(register, size, 0) == prefix_from(register, size, number as int),
        decreases 256 - number,
    {
        let candidate: Register = Register { number: number as u8 };
        if candidate.full_register() == register && candidate.size() == size && register_offset(
            candidate,
        ) == 0 {
            return Some(candidate);
        }
        number = number + 1;
    }
    None
}

/// The parameter that a requirement becomes.
pub open spec fn parameter_of(location: Location, size: usize) -> Option<Parameter> {
    match location {
        Location::Register(register) => match prefix_from(register, size, 0) {
            Some(register) => Some(Parameter::Register(register)),
            None => None,
        },
        Location::Stack(offset) => Some(Parameter::Stack { offset, size }),
    }
}

pub open spec fn parameters_from(
    list: Seq<Location>,
    required: Map<Location, usize>,
) -> Option<Seq<Parameter>>
    decreases list.len(),
{
    if list.len() == 0 {
        Some(Seq::empty())
    } else {
        match (
            parameters_from(list.drop_last(), required),
            parameter_of(list.last(), required[list.last()]),
        ) {
            (Some(front), Some(last)) => Some(front.push(last)),
            _ => None,
        }
    }
}

/// The parameters of a function, unless a requirement has no register.
pub open spec fn parameters_of(required: Map<Location, usize>) -> Option<Seq<Parameter>> {
    parameters_from(listing(required.dom()), required)
}

pub open spec fn all_parameters(required: Seq<Map<Location, usize>>) -> Option<
    Seq<Seq<Parameter>>,
>
    decreases required.len(),
{
    if required.len() == 0 {
        Some(Seq::empty())
    } else {
        match (all_parameters(required.drop_last()), parameters_of(required.last())) {
            (Some(front), Some(last)) => Some(front.push(last)),
            _ => None,
        }
    }
}

pub open spec fn argument_of(parameter: Parameter) -> IRExpr {
    match parameter {
        Parameter::Register(register) => IRExpr::Reg(register),
        Parameter::Stack { offset, size } => IRExpr::Stack { offset, size },
    }
}

/// The instruction with every call handing over what the function takes.
pub open spec fn with_arguments(instr: InstModel, parameters: Seq<Seq<Parameter>>) -> InstModel
    decreases instr,
{
    match instr {
        InstModel::CallSynthetic { function, .. } => InstModel::CallSynthetic {
            function,
            arguments: parameters[function.id as int].map_values(|p: Parameter| argument_of(p)),
        },
        InstModel::If { condition, then_branch, else_branch } => InstModel::If {
            condition,
            then_branch: Box::new(with_arguments(*then_branch, parameters)),
            else_branch: Box::new(with_arguments(*else_branch, parameters)),
        },
        _ => instr,
    }
}

pub open spec fn function_with_parameters(
    function: FunctionModel,
    own: Seq<Parameter>,
    parameters: Seq<Seq<Parameter>>,
) -> FunctionModel {
    FunctionModel {
        parameters: own,
        body: function.body.map_values(
            |item: (usize, InstModel)| (item.0, with_arguments(item.1, parameters)),
        ),
        ..function
    }
}

/// The program with parameters and arguments, unless a stack access crosses a
/// cell or a requirement has no register.
pub open spec fn with_parameters(program: ProgramModel) -> Option<ProgramModel> {
    match widths_of(program.functions) {
        None => None,
        Some(widths) => match all_parameters(settled(program.functions, widths)) {
            None => None,
            Some(parameters) => Some(
                ProgramModel {
                    stack_widths: widths,
                    functions: Seq::new(
                        program.functions.len(),
                        |i: int|
                            function_with_parameters(
                                program.functions[i],
                                parameters[i],
                                parameters,
                            ),
                    ),
                    ..program
                },
            ),
        },
    }
}

/// The locations in order.
fn sort_locations(keys: &Vec<Location>, Ghost(places): Ghost<Set<Location>>) -> (res: Vec<Location>)
    requires
        forall|k: Location| #[trigger] keys@.contains(k) <==> places.contains(k),
    ensures
        res@ == listing(places),
        forall|k: Location| #[trigger] res@.contains(k) <==> places.contains(k),
{
    let mut res: Vec<Location> = Vec::new();
    let ghost mut taken: Set<Location> = Set::empty();
    let mut i: usize = 0;
    while i < keys.len()
        invariant
            i <= keys@.len(),
            is_listing(res@, taken),
            forall|k: int| 0 <= k < i ==> taken.contains(#[trigger] keys@[k]),
            forall|l: Location| #[trigger] taken.contains(l) ==> keys@.contains(l),
        decreases keys@.len() - i,
    {
        let key: Location = keys[i];
        assert(keys@.contains(key));
        insert_location(&mut res, key, Ghost(taken));
        proof {
            taken = taken.insert(key);
        }
        i = i + 1;
    }
    proof {
        assert forall|l: Location| #[trigger] taken.contains(l) <==> places.contains(l) by {
            if places.contains(l) {
                assert(keys@.contains(l));
                let k = choose|k: int| 0 <= k < keys@.len() && keys@[k] == l;
                assert(taken.contains(keys@[k]));
            }
        }
        assert(taken =~= places);
        law_listing_is_unique(res@, listing(places), places);
    }
    res
}

fn insert_location(list: &mut Vec<Location>, key: Location, Ghost(taken): Ghost<Set<Location>>)
    requires
        is_listing(old(list)@, taken),
    ensures
        is_listing(final(list)@, taken.insert(key)),
{
    let ghost before = list@;
    let mut i: usize = 0;
    while i < list.len()
        invariant
            i <= list@.len(),
            list@ == before,
            is_listing(before, taken),
            forall|k: int| 0 <= k < i ==> (#[trigger] before[k]).before(key),
        decreases list@.len() - i,
    {
        if list[i] == key {
            assert(before.contains(before[i as int]));
            assert(taken.insert(key) =~= taken);
            return;
        }
        if key.precedes(list[i]) {
            list.insert(i, key);
            proof {
                lemma_inserted(before, key, i as int, taken);
            }
            return;
        }
        i = i + 1;
    }
    list.push(key);
    proof {
        assert(list@ =~= before.insert(before.len() as int, key));
        lemma_inserted(before, key, before.len() as int, taken);
    }
}

proof fn lemma_inserted(list: Seq<Location>, key: Location, at: int, taken: Set<Location>)
    requires
        is_listing(list, taken),
        0 <= at <= list.len(),
        forall|k: int| 0 <= k < at ==> (#[trigger] list[k]).before(key),
        at < list.len() ==> key.before(list[at]),
    ensures
        is_listing(list.insert(at, key), taken.insert(key)),
{
    let after = list.insert(at, key);
    assert forall|i: int, j: int| 0 <= i < j < after.len() implies (#[trigger] after[i]).before(
        #[trigger] after[j],
    ) by {
        let i2 = if i < at { i } else { i - 1 };
        let j2 = if j < at { j } else { j - 1 };
        if i != at && j != at {
            assert(list[i2].before(list[j2]));
        } else if i == at {
            if j2 > at {
                assert(list[at].before(list[j2]));
            }
        } else {
            assert(list[i2].before(key));
        }
    }
    assert forall|l: Location| #[trigger] after.contains(l) <==> taken.insert(key).contains(l) by {
        if after.contains(l) {
            let k = choose|k: int| 0 <= k < after.len() && after[k] == l;
            if k < at {
                assert(list.contains(list[k]));
            } else if k > at {
                assert(list.contains(list[k - 1]));
            }
        }
        if l == key {
            assert(after[at] == key);
        } else if taken.contains(l) {
            assert(list.contains(l));
            let k = choose|k: int| 0 <= k < list.len() && list[k] == l;
            if k < at {
                assert(after[k] == l);
            } else {
                assert(after[k + 1] == l);
            }
        }
    }
}

proof fn lemma_parameters_stop(list: Seq<Location>, required: Map<Location, usize>, count: int)
    requires
        0 <= count <= list.len(),
        parameters_from(list.subrange(0, count), required) is None,
    ensures
        parameters_from(list, required) is None,
    decreases list.len() - count,
{
    if count < list.len() {
        let next = list.subrange(0, count + 1);
        assert(next.drop_last() =~= list.subrange(0, count));
        lemma_parameters_stop(list, required, count + 1);
    } else {
        assert(list.subrange(0, count) =~= list);
    }
}

fn make_parameters(required: &Table<Location, usize>) -> (res: Option<Vec<Parameter>>)
    ensures
        match res {
            Some(list) => parameters_of(required@) == Some(list@),
            None => parameters_of(required@) is None,
        },
{
    let keys: Vec<Location> = required.keys();
    let list: Vec<Location> = sort_locations(&keys, Ghost(required@.dom()));
    let mut res: Vec<Parameter> = Vec::new();
    assert(list@.subrange(0, 0) =~= Seq::empty());
    let mut i: usize = 0;
    while i < list.len()
        invariant
            i <= list@.len(),
            forall|k: Location| #[trigger] list@.contains(k) <==> required@.dom().contains(k),
            list@ == listing(required@.dom()),
            parameters_from(list@.subrange(0, i as int), required@) == Some(res@),
        decreases list@.len() - i,
    {
        let ghost prefix = list@.subrange(0, i + 1);
        assert(prefix.drop_last() =~= list@.subrange(0, i as int));
        let location: Location = list[i];
        assert(list@.contains(location));
        let size: usize = match required.get(location) {
            Some(size) => *size,
            None => 0,
        };
        let parameter: Option<Parameter> = match location {
            Location::Register(register) => match prefix_register(register, size) {
                Some(register) => Some(Parameter::Register(register)),
                None => None,
            },
            Location::Stack(offset) => Some(Parameter::Stack { offset, size }),
        };
        match parameter {
            Some(parameter) => {
                res.push(parameter);
            },
            None => {
                proof {
                    lemma_parameters_stop(list@, required@, i + 1);
                }
                return None;
            },
        }
        i = i + 1;
    }
    assert(list@.subrange(0, i as int) =~= list@);
    Some(res)
}

pub open spec fn lists(parameters: Seq<Vec<Parameter>>) -> Seq<Seq<Parameter>> {
    parameters.map_values(|p: Vec<Parameter>| p@)
}

proof fn lemma_all_parameters_stop(required: Seq<Map<Location, usize>>, count: int)
    requires
        0 <= count <= required.len(),
        all_parameters(required.subrange(0, count)) is None,
    ensures
        all_parameters(required) is None,
    decreases required.len() - count,
{
    if count < required.len() {
        let next = required.subrange(0, count + 1);
        assert(next.drop_last() =~= required.subrange(0, count));
        lemma_all_parameters_stop(required, count + 1);
    } else {
        assert(required.subrange(0, count) =~= required);
    }
}

fn make_all_parameters(required: &Vec<Table<Location, usize>>) -> (res: Option<
    Vec<Vec<Parameter>>,
>)
    ensures
        match res {
            Some(parameters) => all_parameters(tables(required@)) == Some(lists(parameters@))
                && parameters@.len() == required@.len(),
            None => all_parameters(tables(required@)) is None,
        },
{
    let ghost all = tables(required@);
    let mut res: Vec<Vec<Parameter>> = Vec::new();
    assert(all.subrange(0, 0) =~= Seq::empty());
    assert(lists(res@) =~= Seq::empty());
    let mut i: usize = 0;
    while i < required.len()
        invariant
            i <= required@.len(),
            res@.len() == i,
            all == tables(required@),
            all_parameters(all.subrange(0, i as int)) == Some(lists(res@)),
        decreases required@.len() - i,
    {
        let ghost prefix = all.subrange(0, i + 1);
        assert(prefix.drop_last() =~= all.subrange(0, i as int));
        match make_parameters(&required[i]) {
            Some(list) => {
                let ghost before = lists(res@);
                res.push(list);
                assert(lists(res@) =~= before.push(list@));
            },
            None => {
                proof {
                    lemma_all_parameters_stop(all, i + 1);
                }
                return None;
            },
        }
        i = i + 1;
    }
    assert(all.subrange(0, i as int) =~= all);
    Some(res)
}

fn fill_calls(instr: &IRInst, parameters: &Vec<Vec<Parameter>>) -> (res: IRInst)
    requires
        calls_within(instr.model(), parameters@.len() as int),
    ensures
        res.model() == with_arguments(instr.model(), lists(parameters@)),
    decreases instr,
{
    match instr {
        IRInst::CallSynthetic { function, .. } => {
            let list = &parameters[function.id];
            assert(lists(parameters@)[function.id as int] == list@);
            let mut arguments: Vec<IRExpr> = Vec::new();
            let mut i: usize = 0;
            while i < list.len()
                invariant
                    i <= list@.len(),
                    arguments@.len() == i,
                    forall|k: int|
                        0 <= k < i ==> (#[trigger] arguments@[k]) == argument_of(list@[k]),
                decreases list@.len() - i,
            {
                arguments.push(
                    match list[i] {
                        Parameter::Register(register) => IRExpr::Reg(register),
                        Parameter::Stack { offset, size } => IRExpr::Stack { offset, size },
                    },
                );
                i = i + 1;
            }
            assert(arguments@ =~= list@.map_values(|p: Parameter| argument_of(p)));
            IRInst::CallSynthetic { function: *function, arguments }
        },
        IRInst::If { condition, then_branch, else_branch } => IRInst::If {
            condition: condition.clone(),
            then_branch: Box::new(fill_calls(then_branch, parameters)),
            else_branch: Box::new(fill_calls(else_branch, parameters)),
        },
        _ => instr.clone(),
    }
}

fn fill_function(
    function: &SyntheticFunction,
    own: usize,
    parameters: &Vec<Vec<Parameter>>,
) -> (res: SyntheticFunction)
    requires
        own < parameters@.len(),
        body_calls_within(function.model().body, parameters@.len() as int),
    ensures
        res.model() == function_with_parameters(
            function.model(),
            lists(parameters@)[own as int],
            lists(parameters@),
        ),
{
    let ghost all = function.model().body;
    let mut body: Vec<(usize, IRInst)> = Vec::new();
    let mut i: usize = 0;
    while i < function.body.len()
        invariant
            i <= function.body@.len(),
            all == body_models(function.body@),
            body_calls_within(all, parameters@.len() as int),
            body@.len() == i,
            forall|k: int|
                0 <= k < i ==> (#[trigger] body@[k]).0 == all[k].0 && body@[k].1.model()
                    == with_arguments(all[k].1, lists(parameters@)),
        decreases function.body@.len() - i,
    {
        assert(all[i as int].1 == function.body@[i as int].1.model());
        assert(calls_within(all[i as int].1, parameters@.len() as int));
        body.push((function.body[i].0, fill_calls(&function.body[i].1, parameters)));
        i = i + 1;
    }
    let mut list: Vec<Parameter> = Vec::new();
    let mut j: usize = 0;
    while j < parameters[own].len()
        invariant
            own < parameters@.len(),
            j <= parameters@[own as int]@.len(),
            list@ == parameters@[own as int]@.subrange(0, j as int),
        decreases parameters@[own as int]@.len() - j,
    {
        list.push(parameters[own][j]);
        j = j + 1;
        assert(list@ =~= parameters@[own as int]@.subrange(0, j as int));
    }
    assert(list@ =~= lists(parameters@)[own as int]);
    assert(body_models(body@) =~= all.map_values(
        |item: (usize, InstModel)| (item.0, with_arguments(item.1, lists(parameters@))),
    ));
    SyntheticFunction {
        entry_offset: function.entry_offset,
        parameters: list,
        external_flags: function.external_flags,
        body,
    }
}

/// Gives every function its parameters and every call its arguments, if every
/// stack access stays within its cell and every requirement has a register.
pub fn try_tr(program: &Program) -> (res: Option<Program>)
    requires
        is_linked(program.model()),
    ensures
        match res {
            Some(after) => with_parameters(program.model()) == Some(after.model()),
            None => with_parameters(program.model()) is None,
        },
{
    let ghost models = function_models(program.functions@);
    let widths: Table<i64, usize> = match collect_widths(&program.functions) {
        Some(widths) => widths,
        None => return None,
    };
    proof {
        lemma_widths_cover_all(models);
    }
    let required: Vec<Table<Location, usize>> = settle(&program.functions, &widths);
    let parameters: Vec<Vec<Parameter>> = match make_all_parameters(&required) {
        Some(parameters) => parameters,
        None => return None,
    };
    let ghost all = lists(parameters@);
    let mut functions: Vec<SyntheticFunction> = Vec::new();
    let mut i: usize = 0;
    while i < program.functions.len()
        invariant
            i <= program.functions@.len(),
            models == function_models(program.functions@),
            functions_linked(models, program.functions@.len() as int),
            parameters@.len() == program.functions@.len(),
            all == lists(parameters@),
            functions@.len() == i,
            forall|k: int|
                0 <= k < i ==> (#[trigger] functions@[k]).model() == function_with_parameters(
                    models[k],
                    all[k],
                    all,
                ),
        decreases program.functions@.len() - i,
    {
        assert(models[i as int] == program.functions@[i as int].model());
        functions.push(fill_function(&program.functions[i], i, &parameters));
        i = i + 1;
    }
    assert(function_models(functions@) =~= Seq::new(
        models.len(),
        |i: int| function_with_parameters(models[i], all[i], all),
    ));
    Some(
        Program {
            entry_address: program.entry_address,
            entry: program.entry,
            stack_widths: widths,
            functions,
        },
    )
}

/// Gives every function its parameters and every call its arguments. Every stack
/// access has to stay within its cell, and every requirement to have a register.
pub fn tr(program: Program) -> (res: Program)
    requires
        is_linked(program.model()),
        with_parameters(program.model()) is Some,
    ensures
        Some(res.model()) == with_parameters(program.model()),
{
    match try_tr(&program) {
        Some(program) => program,
        None => program,
    }
}

} // verus!
