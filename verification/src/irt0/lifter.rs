//! Lifting decoded machine instructions into tier 0.
use super::ir::{FlagSet, IRBinOpKind, IRExpr, IRInst, NativeFlag, Program, ProgramModel};
use crate::x86::{
    decode, decoded, full32_number, register_width, Decoded, Operand, Register, CL,
    CODE_IMUL_R32_RM32_IMM32, CODE_IMUL_R32_RM32_IMM8, CODE_JAE_REL8_64, CODE_JBE_REL8_64,
    CODE_JB_REL8_64, CODE_JE_REL32_64, CODE_JE_REL8_64, CODE_JGE_REL32_64, CODE_JGE_REL8_64,
    CODE_JG_REL32_64, CODE_JG_REL8_64, CODE_JLE_REL32_64, CODE_JLE_REL8_64, CODE_JL_REL32_64,
    CODE_JL_REL8_64, CODE_JNE_REL32_64, CODE_JNE_REL8_64, CODE_LEA_R32_M, CODE_LEA_R64_M,
    CODE_MOVSX_R32_RM16, CODE_MOVSX_R32_RM8, CODE_MOVSX_R64_RM16, CODE_MOVSX_R64_RM8,
    CODE_MOVZX_R32_RM16, CODE_MOVZX_R32_RM8, CODE_MOVZX_R64_RM16, CODE_MOVZX_R64_RM8,
    CODE_RETNQ, CODE_TEST_RM32_R32, CODE_TEST_RM64_R64, CODE_TEST_RM8_R8, CODE_XOR_R32_RM32,
    CODE_XOR_RM32_R32, FS, GS, MNEMONIC_ADD, MNEMONIC_CMOVNE, MNEMONIC_CMP, MNEMONIC_DEC,
    MNEMONIC_IMUL, MNEMONIC_INC, MNEMONIC_JAE, MNEMONIC_JB, MNEMONIC_JBE, MNEMONIC_JE,
    MNEMONIC_JG, MNEMONIC_JGE, MNEMONIC_JL, MNEMONIC_JLE, MNEMONIC_JMP, MNEMONIC_JNE,
    MNEMONIC_LEA, MNEMONIC_MOV, MNEMONIC_MOVSX, MNEMONIC_MOVSXD, MNEMONIC_MOVZX, MNEMONIC_NOP,
    MNEMONIC_POP, MNEMONIC_PUSH, MNEMONIC_RET, MNEMONIC_SHL, MNEMONIC_SHR, MNEMONIC_SUB,
    MNEMONIC_TEST, MNEMONIC_XOR, NONE, OPERAND_IMMEDIATE16, OPERAND_IMMEDIATE32,
    OPERAND_IMMEDIATE32TO64, OPERAND_IMMEDIATE64, OPERAND_IMMEDIATE8, OPERAND_IMMEDIATE8TO16,
    OPERAND_IMMEDIATE8TO32, OPERAND_IMMEDIATE8TO64, OPERAND_MEMORY, OPERAND_NEAR_BRANCH64,
    OPERAND_REGISTER, RSP,
};
use vstd::prelude::*;

verus! {

pub open spec fn operation(kind: IRBinOpKind, lhs: IRExpr, rhs: IRExpr) -> IRExpr {
    IRExpr::BinOp { kind, lhs: Box::new(lhs), rhs: Box::new(rhs) }
}

fn bin_op(kind: IRBinOpKind, lhs: IRExpr, rhs: IRExpr) -> (res: IRExpr)
    ensures
        res == operation(kind, lhs, rhs),
{
    IRExpr::BinOp { kind, lhs: Box::new(lhs), rhs: Box::new(rhs) }
}

pub open spec fn sign_extended(value: IRExpr, size: usize) -> IRExpr {
    IRExpr::SignExtend { value: Box::new(value), size }
}

// ---------------------------------------------------------------------------
// The native stack

/// The displacement from the stack pointer of an address that is one.
pub open spec fn stack_displacement(address: IRExpr) -> Option<i64> {
    match address {
        IRExpr::Reg(register) => if register.number == RSP {
            Some(0)
        } else {
            None
        },
        IRExpr::BinOp { kind: IRBinOpKind::Add, lhs, rhs } => match (*lhs, *rhs) {
            (IRExpr::Reg(register), IRExpr::CU64(value)) => if register.number == RSP {
                Some(value as i64)
            } else {
                None
            },
            (IRExpr::Reg(register), IRExpr::CU32(value)) => if register.number == RSP {
                Some(value as i32 as i64)
            } else {
                None
            },
            _ => None,
        },
        _ => None,
    }
}

fn stack_address(address: &IRExpr) -> (res: Option<i64>)
    ensures
        res == stack_displacement(*address),
{
    match address {
        IRExpr::Reg(register) => if register.number == RSP {
            Some(0)
        } else {
            None
        },
        IRExpr::BinOp { kind, lhs, rhs } => {
            if *kind != IRBinOpKind::Add {
                return None;
            }
            match (&**lhs, &**rhs) {
                (IRExpr::Reg(register), IRExpr::CU64(value)) => if register.number == RSP {
                    Some(*value as i64)
                } else {
                    None
                },
                (IRExpr::Reg(register), IRExpr::CU32(value)) => if register.number == RSP {
                    Some(*value as i32 as i64)
                } else {
                    None
                },
                _ => None,
            }
        },
        _ => None,
    }
}

/// An expression with its stack accesses given relative to the entry stack
/// pointer, which lies `depth` bytes above the current one. There is none where
/// the stack pointer is used in another way.
pub open spec fn resolved(expr: IRExpr, depth: i64) -> Option<IRExpr>
    decreases expr,
{
    match expr {
        IRExpr::Deref { address, size } => match stack_displacement(*address) {
            Some(displacement) => if i64::MIN <= displacement - depth <= i64::MAX {
                Some(IRExpr::Stack { offset: (displacement - depth) as i64, size })
            } else {
                None
            },
            None => match resolved(*address, depth) {
                Some(address) => Some(IRExpr::Deref { address: Box::new(address), size }),
                None => None,
            },
        },
        IRExpr::BinOp { kind, lhs, rhs } => match (resolved(*lhs, depth), resolved(*rhs, depth)) {
            (Some(lhs), Some(rhs)) => Some(operation(kind, lhs, rhs)),
            _ => None,
        },
        IRExpr::ExtractBytes { value, offset, size } => match resolved(*value, depth) {
            Some(value) => Some(IRExpr::ExtractBytes { value: Box::new(value), offset, size }),
            None => None,
        },
        IRExpr::ZeroExtend { value, size } => match resolved(*value, depth) {
            Some(value) => Some(IRExpr::ZeroExtend { value: Box::new(value), size }),
            None => None,
        },
        IRExpr::SignExtend { value, size } => match resolved(*value, depth) {
            Some(value) => Some(IRExpr::SignExtend { value: Box::new(value), size }),
            None => None,
        },
        IRExpr::Reg(register) => if register.number == RSP {
            None
        } else {
            Some(expr)
        },
        _ => Some(expr),
    }
}

fn resolve_stack_expr(expr: &IRExpr, depth: i64) -> (res: Option<IRExpr>)
    ensures
        res == resolved(*expr, depth),
    decreases expr,
{
    match expr {
        IRExpr::Deref { address, size } => match stack_address(address) {
            Some(displacement) => match displacement.checked_sub(depth) {
                Some(offset) => Some(IRExpr::Stack { offset, size: *size }),
                None => None,
            },
            None => match resolve_stack_expr(address, depth) {
                Some(address) => Some(IRExpr::Deref { address: Box::new(address), size: *size }),
                None => None,
            },
        },
        IRExpr::BinOp { kind, lhs, rhs } => match (
            resolve_stack_expr(lhs, depth),
            resolve_stack_expr(rhs, depth),
        ) {
            (Some(lhs), Some(rhs)) => Some(bin_op(*kind, lhs, rhs)),
            _ => None,
        },
        IRExpr::ExtractBytes { value, offset, size } => match resolve_stack_expr(value, depth) {
            Some(value) => Some(
                IRExpr::ExtractBytes { value: Box::new(value), offset: *offset, size: *size },
            ),
            None => None,
        },
        IRExpr::ZeroExtend { value, size } => match resolve_stack_expr(value, depth) {
            Some(value) => Some(IRExpr::ZeroExtend { value: Box::new(value), size: *size }),
            None => None,
        },
        IRExpr::SignExtend { value, size } => match resolve_stack_expr(value, depth) {
            Some(value) => Some(IRExpr::SignExtend { value: Box::new(value), size: *size }),
            None => None,
        },
        IRExpr::Reg(register) => if register.number == RSP {
            None
        } else {
            Some(expr.clone())
        },
        _ => Some(expr.clone()),
    }
}

/// An instruction with its stack accesses resolved.
pub open spec fn resolved_instruction(instr: IRInst, depth: i64) -> Option<IRInst>
    decreases instr,
{
    match instr {
        IRInst::Asgn { dest, src } => match (resolved(dest, depth), resolved(src, depth)) {
            (Some(dest), Some(src)) => Some(IRInst::Asgn { dest, src }),
            _ => None,
        },
        IRInst::If(condition, inner) => match (
            resolved(condition, depth),
            resolved_instruction(*inner, depth),
        ) {
            (Some(condition), Some(inner)) => Some(IRInst::If(condition, Box::new(inner))),
            _ => None,
        },
        IRInst::Jmp(target) => match resolved(target, depth) {
            Some(target) => Some(IRInst::Jmp(target)),
            None => None,
        },
        IRInst::Ret(Some(value)) => match resolved(value, depth) {
            Some(value) => Some(IRInst::Ret(Some(value))),
            None => None,
        },
        IRInst::SetFlagsFrom(flags, expr) => match resolved(expr, depth) {
            Some(expr) => Some(IRInst::SetFlagsFrom(flags, expr)),
            None => None,
        },
        _ => Some(instr),
    }
}

fn resolve_stack(instr: &IRInst, depth: i64) -> (res: Option<IRInst>)
    ensures
        res == resolved_instruction(*instr, depth),
    decreases instr,
{
    match instr {
        IRInst::Asgn { dest, src } => match (
            resolve_stack_expr(dest, depth),
            resolve_stack_expr(src, depth),
        ) {
            (Some(dest), Some(src)) => Some(IRInst::Asgn { dest, src }),
            _ => None,
        },
        IRInst::If(condition, inner) => match (
            resolve_stack_expr(condition, depth),
            resolve_stack(inner, depth),
        ) {
            (Some(condition), Some(inner)) => Some(IRInst::If(condition, Box::new(inner))),
            _ => None,
        },
        IRInst::Jmp(target) => match resolve_stack_expr(target, depth) {
            Some(target) => Some(IRInst::Jmp(target)),
            None => None,
        },
        IRInst::Ret(Some(value)) => match resolve_stack_expr(value, depth) {
            Some(value) => Some(IRInst::Ret(Some(value))),
            None => None,
        },
        IRInst::SetFlagsFrom(flags, expr) => match resolve_stack_expr(expr, depth) {
            Some(expr) => Some(IRInst::SetFlagsFrom(*flags, expr)),
            None => None,
        },
        _ => Some(instr.clone()),
    }
}

// ---------------------------------------------------------------------------
// Operands

/// An address constant at the width of the address arithmetic.
pub open spec fn address_constant(value: u64, narrow: bool) -> IRExpr {
    if narrow {
        IRExpr::CU32(value as u32)
    } else {
        IRExpr::CU64(value)
    }
}

fn constant(value: u64, narrow: bool) -> (res: IRExpr)
    ensures
        res == address_constant(value, narrow),
{
    if narrow {
        IRExpr::CU32(value as u32)
    } else {
        IRExpr::CU64(value)
    }
}

pub open spec fn is_double_word(register: Register) -> bool {
    37 <= register.number <= 52
}

/// A register of an address, in its 32-bit form where only that many bits count.
pub open spec fn address_register(register: Register, truncate32: bool) -> Register {
    if truncate32 {
        Register { number: full32_number(register.number) }
    } else {
        register
    }
}

/// The sum of base, displacement and scaled index.
pub open spec fn address_sum(x: Decoded, base: Register, index: Register, narrow: bool) -> IRExpr {
    let displaced = address_constant(x.displacement, narrow);
    let based = if base.number != NONE {
        operation(IRBinOpKind::Add, IRExpr::Reg(base), displaced)
    } else {
        displaced
    };
    if index.number != NONE {
        operation(
            IRBinOpKind::Add,
            based,
            if x.scale != 1 {
                operation(
                    IRBinOpKind::Mul,
                    IRExpr::Reg(index),
                    address_constant(x.scale as u64, narrow),
                )
            } else {
                IRExpr::Reg(index)
            },
        )
    } else {
        based
    }
}

/// The address of the memory operand. Vector indices and the segments with a
/// base of their own are not supported.
pub open spec fn address_of(x: Decoded, truncate32: bool) -> Option<IRExpr> {
    if x.vector_index || x.segment.number == FS || x.segment.number == GS {
        None
    } else if x.ip_relative {
        Some(address_constant(x.ip_relative_address, truncate32))
    } else {
        let base = address_register(x.base, truncate32);
        let index = address_register(x.index, truncate32);
        let narrow = truncate32 || is_double_word(base) || is_double_word(index);
        let sum = address_sum(x, base, index, narrow);
        if narrow && !truncate32 {
            Some(
                IRExpr::ZeroExtend {
                    value: Box::new(
                        IRExpr::ExtractBytes { value: Box::new(sum), offset: 0, size: 4 },
                    ),
                    size: 8,
                },
            )
        } else {
            Some(sum)
        }
    }
}

/// Address arithmetic is independent of the memory operand's access width.
fn effective_address(x: &Decoded, truncate32: bool) -> (res: Option<IRExpr>)
    ensures
        res == address_of(*x, truncate32),
{
    if x.vector_index || x.segment.number == FS || x.segment.number == GS {
        return None;
    }
    if x.ip_relative {
        return Some(constant(x.ip_relative_address, truncate32));
    }
    let base: Register = if truncate32 {
        x.base.full_register32()
    } else {
        x.base
    };
    let index: Register = if truncate32 {
        x.index.full_register32()
    } else {
        x.index
    };
    let narrow: bool = truncate32 || base.is_gpr32() || index.is_gpr32();
    let mut address: IRExpr = constant(x.displacement, narrow);
    if base.number != NONE {
        address = bin_op(IRBinOpKind::Add, IRExpr::Reg(base), address);
    }
    if index.number != NONE {
        let mut scaled: IRExpr = IRExpr::Reg(index);
        if x.scale != 1 {
            scaled = bin_op(IRBinOpKind::Mul, scaled, constant(x.scale as u64, narrow));
        }
        address = bin_op(IRBinOpKind::Add, address, scaled);
    }
    if narrow && !truncate32 {
        Some(
            IRExpr::ZeroExtend {
                value: Box::new(
                    IRExpr::ExtractBytes { value: Box::new(address), offset: 0, size: 4 },
                ),
                size: 8,
            },
        )
    } else {
        Some(address)
    }
}

pub open spec fn is_access_width(size: usize) -> bool {
    size == 1 || size == 2 || size == 4 || size == 8
}

fn access_width(size: usize) -> (res: bool)
    ensures
        res == is_access_width(size),
{
    size == 1 || size == 2 || size == 4 || size == 8
}

/// An immediate as a constant of the width that its encoding gives it.
pub open spec fn immediate_value(kind: u32, immediate: u64) -> Option<IRExpr> {
    if kind == OPERAND_IMMEDIATE8 {
        Some(IRExpr::CU8(immediate as u8))
    } else if kind == OPERAND_IMMEDIATE16 || kind == OPERAND_IMMEDIATE8TO16 {
        Some(IRExpr::CU32(immediate as u16 as u32))
    } else if kind == OPERAND_IMMEDIATE32 || kind == OPERAND_IMMEDIATE8TO32 {
        Some(IRExpr::CU32(immediate as u32))
    } else if kind == OPERAND_IMMEDIATE64 || kind == OPERAND_IMMEDIATE8TO64 || kind
        == OPERAND_IMMEDIATE32TO64 {
        Some(IRExpr::CU64(immediate))
    } else {
        None
    }
}

/// The value of an operand.
pub open spec fn operand_value(x: Decoded, operand: Operand) -> Option<IRExpr> {
    if operand.kind == OPERAND_MEMORY {
        match address_of(x, false) {
            Some(address) => if is_access_width(x.memory_width) {
                Some(IRExpr::Deref { address: Box::new(address), size: x.memory_width })
            } else {
                None
            },
            None => None,
        }
    } else if operand.kind == OPERAND_REGISTER {
        Some(IRExpr::Reg(operand.register))
    } else if operand.kind == OPERAND_NEAR_BRANCH64 {
        Some(IRExpr::CU64(x.target))
    } else {
        match operand.immediate {
            Some(immediate) => immediate_value(operand.kind, immediate),
            None => None,
        }
    }
}

fn lift_op(x: &Decoded, operand: &Operand) -> (res: Option<IRExpr>)
    ensures
        res == operand_value(*x, *operand),
{
    if operand.kind == OPERAND_MEMORY {
        if !access_width(x.memory_width) {
            return None;
        }
        match effective_address(x, false) {
            Some(address) => Some(
                IRExpr::Deref { address: Box::new(address), size: x.memory_width },
            ),
            None => None,
        }
    } else if operand.kind == OPERAND_REGISTER {
        Some(IRExpr::Reg(operand.register))
    } else if operand.kind == OPERAND_NEAR_BRANCH64 {
        Some(IRExpr::CU64(x.target))
    } else {
        match operand.immediate {
            Some(immediate) => {
                let kind: u32 = operand.kind;
                if kind == OPERAND_IMMEDIATE8 {
                    Some(IRExpr::CU8(immediate as u8))
                } else if kind == OPERAND_IMMEDIATE16 || kind == OPERAND_IMMEDIATE8TO16 {
                    Some(IRExpr::CU32(immediate as u16 as u32))
                } else if kind == OPERAND_IMMEDIATE32 || kind == OPERAND_IMMEDIATE8TO32 {
                    Some(IRExpr::CU32(immediate as u32))
                } else if kind == OPERAND_IMMEDIATE64 || kind == OPERAND_IMMEDIATE8TO64 || kind
                    == OPERAND_IMMEDIATE32TO64 {
                    Some(IRExpr::CU64(immediate))
                } else {
                    None
                }
            },
            None => None,
        }
    }
}

// ---------------------------------------------------------------------------
// Instructions

/// One assignment.
pub open spec fn assigned(dest: Option<IRExpr>, src: Option<IRExpr>) -> Option<Seq<IRInst>> {
    match (dest, src) {
        (Some(dest), Some(src)) => Some(seq![IRInst::Asgn { dest, src }]),
        _ => None,
    }
}

fn assign(dest: Option<IRExpr>, src: Option<IRExpr>) -> (res: Option<Vec<IRInst>>)
    ensures
        matches_list(res, assigned(dest, src)),
{
    match (dest, src) {
        (Some(dest), Some(src)) => {
            let mut res: Vec<IRInst> = Vec::new();
            res.push(IRInst::Asgn { dest, src });
            Some(res)
        },
        _ => None,
    }
}

/// Whether an executable list is the one that is meant.
pub open spec fn matches_list(list: Option<Vec<IRInst>>, model: Option<Seq<IRInst>>) -> bool {
    match (list, model) {
        (Some(list), Some(model)) => list@ == model,
        (None, None) => true,
        _ => false,
    }
}

pub open spec fn is_extension(code: u32) -> bool {
    code == CODE_MOVZX_R32_RM8 || code == CODE_MOVZX_R32_RM16 || code == CODE_MOVZX_R64_RM8
        || code == CODE_MOVZX_R64_RM16 || code == CODE_MOVSX_R32_RM8 || code
        == CODE_MOVSX_R32_RM16 || code == CODE_MOVSX_R64_RM8 || code == CODE_MOVSX_R64_RM16
}

/// These are value conversions, not native operations in the next tier.
pub open spec fn lifted_extend(x: Decoded) -> Option<Seq<IRInst>> {
    if !is_extension(x.code) {
        None
    } else {
        assigned(
            operand_value(x, x.first),
            match operand_value(x, x.second) {
                Some(value) => Some(
                    if x.mnemonic == MNEMONIC_MOVZX {
                        IRExpr::ZeroExtend {
                            value: Box::new(value),
                            size: register_width(x.first.register.number),
                        }
                    } else {
                        IRExpr::SignExtend {
                            value: Box::new(value),
                            size: register_width(x.first.register.number),
                        }
                    },
                ),
                None => None,
            },
        )
    }
}

fn lift_extend(x: &Decoded) -> (res: Option<Vec<IRInst>>)
    ensures
        matches_list(res, lifted_extend(*x)),
{
    let code: u32 = x.code;
    if !(code == CODE_MOVZX_R32_RM8 || code == CODE_MOVZX_R32_RM16 || code == CODE_MOVZX_R64_RM8
        || code == CODE_MOVZX_R64_RM16 || code == CODE_MOVSX_R32_RM8 || code
        == CODE_MOVSX_R32_RM16 || code == CODE_MOVSX_R64_RM8 || code == CODE_MOVSX_R64_RM16) {
        return None;
    }
    let value: IRExpr = match lift_op(x, &x.second) {
        Some(value) => value,
        None => return None,
    };
    let size: usize = x.first.register.size();
    let src: IRExpr = if x.mnemonic == MNEMONIC_MOVZX {
        IRExpr::ZeroExtend { value: Box::new(value), size }
    } else {
        IRExpr::SignExtend { value: Box::new(value), size }
    };
    assign(lift_op(x, &x.first), Some(src))
}

/// Only the low 32 bits contribute to a 32-bit destination. Do the
/// arithmetic at that width instead of carrying high address bits onward.
pub open spec fn lifted_lea(x: Decoded) -> Option<Seq<IRInst>> {
    if x.code != CODE_LEA_R32_M && x.code != CODE_LEA_R64_M {
        None
    } else {
        assigned(
            operand_value(x, x.first),
            address_of(x, register_width(x.first.register.number) == 4),
        )
    }
}

fn lift_lea(x: &Decoded) -> (res: Option<Vec<IRInst>>)
    ensures
        matches_list(res, lifted_lea(*x)),
{
    if x.code != CODE_LEA_R32_M && x.code != CODE_LEA_R64_M {
        return None;
    }
    let src: Option<IRExpr> = effective_address(x, x.first.register.size() == 4);
    assign(lift_op(x, &x.first), src)
}

/// The two signed 32-bit operands have an exact signed 64-bit product.
/// CF/OF test whether truncation to 32 bits loses signed information.
pub open spec fn product_overflows(left: IRExpr, right: IRExpr) -> IRExpr {
    let product = operation(IRBinOpKind::Mul, sign_extended(left, 8), sign_extended(right, 8));
    let low = IRExpr::ExtractBytes { value: Box::new(product), offset: 0, size: 4 };
    operation(
        IRBinOpKind::Eq,
        operation(IRBinOpKind::Eq, product, sign_extended(low, 8)),
        IRExpr::CU8(0),
    )
}

pub open spec fn multiplication_undefined() -> FlagSet {
    FlagSet::none().adding(NativeFlag::Zero).adding(NativeFlag::Sign).adding(
        NativeFlag::Parity,
    ).adding(NativeFlag::AuxCarry)
}

pub open spec fn lifted_imul(x: Decoded) -> Option<Seq<IRInst>> {
    if x.code != CODE_IMUL_R32_RM32_IMM32 && x.code != CODE_IMUL_R32_RM32_IMM8 {
        None
    } else {
        match (operand_value(x, x.first), operand_value(x, x.second), operand_value(x, x.third)) {
            (Some(dest), Some(left), Some(right)) => Some(
                seq![
                    IRInst::Asgn {
                        dest: IRExpr::Flag(NativeFlag::Carry),
                        src: product_overflows(left, right),
                    },
                    IRInst::Asgn {
                        dest: IRExpr::Flag(NativeFlag::Overflow),
                        src: product_overflows(left, right),
                    },
                    IRInst::InvalidateFlags(multiplication_undefined()),
                    IRInst::Asgn { dest, src: operation(IRBinOpKind::Mul, left, right) },
                ],
            ),
            _ => None,
        }
    }
}

fn lift_imul(x: &Decoded) -> (res: Option<Vec<IRInst>>)
    ensures
        matches_list(res, lifted_imul(*x)),
{
    if x.code != CODE_IMUL_R32_RM32_IMM32 && x.code != CODE_IMUL_R32_RM32_IMM8 {
        return None;
    }
    match (lift_op(x, &x.first), lift_op(x, &x.second), lift_op(x, &x.third)) {
        (Some(dest), Some(left), Some(right)) => {
            let product: IRExpr = bin_op(
                IRBinOpKind::Mul,
                IRExpr::SignExtend { value: Box::new(left.clone()), size: 8 },
                IRExpr::SignExtend { value: Box::new(right.clone()), size: 8 },
            );
            let low: IRExpr = IRExpr::ExtractBytes {
                value: Box::new(product.clone()),
                offset: 0,
                size: 4,
            };
            let overflow: IRExpr = bin_op(
                IRBinOpKind::Eq,
                bin_op(
                    IRBinOpKind::Eq,
                    product,
                    IRExpr::SignExtend { value: Box::new(low), size: 8 },
                ),
                IRExpr::CU8(0),
            );
            let mut res: Vec<IRInst> = Vec::new();
            res.push(
                IRInst::Asgn { dest: IRExpr::Flag(NativeFlag::Carry), src: overflow.clone() },
            );
            res.push(IRInst::Asgn { dest: IRExpr::Flag(NativeFlag::Overflow), src: overflow });
            res.push(
                IRInst::InvalidateFlags(
                    FlagSet::new().with(NativeFlag::Zero).with(NativeFlag::Sign).with(
                        NativeFlag::Parity,
                    ).with(NativeFlag::AuxCarry),
                ),
            );
            res.push(IRInst::Asgn { dest, src: bin_op(IRBinOpKind::Mul, left, right) });
            assert(res@ =~= lifted_imul(*x)->0);
            Some(res)
        },
        _ => None,
    }
}

/// Whether an operand can be moved: a general purpose register, memory of a
/// supported width, or an immediate.
pub open spec fn is_movable(x: Decoded, operand: Operand) -> bool {
    if operand.kind == OPERAND_REGISTER {
        1 <= operand.register.number <= 68
    } else if operand.kind == OPERAND_MEMORY {
        is_access_width(x.memory_width)
    } else {
        operand.kind == OPERAND_IMMEDIATE8 || operand.kind == OPERAND_IMMEDIATE16 || operand.kind
            == OPERAND_IMMEDIATE32 || operand.kind == OPERAND_IMMEDIATE64 || operand.kind
            == OPERAND_IMMEDIATE8TO16 || operand.kind == OPERAND_IMMEDIATE8TO32 || operand.kind
            == OPERAND_IMMEDIATE8TO64 || operand.kind == OPERAND_IMMEDIATE32TO64
    }
}

fn movable(x: &Decoded, operand: &Operand) -> (res: bool)
    ensures
        res == is_movable(*x, *operand),
{
    if operand.kind == OPERAND_REGISTER {
        operand.register.is_gpr()
    } else if operand.kind == OPERAND_MEMORY {
        access_width(x.memory_width)
    } else {
        operand.kind == OPERAND_IMMEDIATE8 || operand.kind == OPERAND_IMMEDIATE16 || operand.kind
            == OPERAND_IMMEDIATE32 || operand.kind == OPERAND_IMMEDIATE64 || operand.kind
            == OPERAND_IMMEDIATE8TO16 || operand.kind == OPERAND_IMMEDIATE8TO32 || operand.kind
            == OPERAND_IMMEDIATE8TO64 || operand.kind == OPERAND_IMMEDIATE32TO64
    }
}

pub open spec fn lifted_mov(x: Decoded) -> Option<Seq<IRInst>> {
    if is_movable(x, x.first) && is_movable(x, x.second) {
        assigned(operand_value(x, x.first), operand_value(x, x.second))
    } else {
        None
    }
}

fn lift_mov(x: &Decoded) -> (res: Option<Vec<IRInst>>)
    ensures
        matches_list(res, lifted_mov(*x)),
{
    if !movable(x, &x.first) || !movable(x, &x.second) {
        return None;
    }
    assign(lift_op(x, &x.first), lift_op(x, &x.second))
}

/// Whether the instruction steps by one, and so leaves the carry alone.
pub open spec fn is_step(x: Decoded) -> bool {
    x.mnemonic == MNEMONIC_INC || x.mnemonic == MNEMONIC_DEC
}

pub open spec fn step_flags() -> FlagSet {
    FlagSet::none().adding(NativeFlag::AuxCarry).adding(NativeFlag::Overflow).adding(
        NativeFlag::Parity,
    ).adding(NativeFlag::Sign).adding(NativeFlag::Zero)
}

pub open spec fn arithmetic_flags() -> FlagSet {
    step_flags().adding(NativeFlag::Carry)
}

fn flags_of_step() -> (res: FlagSet)
    ensures
        res == step_flags(),
{
    FlagSet::new().with(NativeFlag::AuxCarry).with(NativeFlag::Overflow).with(
        NativeFlag::Parity,
    ).with(NativeFlag::Sign).with(NativeFlag::Zero)
}

/// The flags set from the result, and the result assigned.
pub open spec fn lifted_arithmetic(x: Decoded, kind: IRBinOpKind) -> Option<Seq<IRInst>> {
    match (
        operand_value(x, x.first),
        if is_step(x) {
            Some(IRExpr::CU8(1))
        } else {
            operand_value(x, x.second)
        },
    ) {
        (Some(operand), Some(rhs)) => {
            let result = operation(kind, operand, rhs);
            Some(
                seq![
                    IRInst::SetFlagsFrom(
                        if is_step(x) {
                            step_flags()
                        } else {
                            arithmetic_flags()
                        },
                        result,
                    ),
                    IRInst::Asgn { dest: operand, src: result },
                ],
            )
        },
        _ => None,
    }
}

fn lift_arithmetic(x: &Decoded, kind: IRBinOpKind) -> (res: Option<Vec<IRInst>>)
    ensures
        matches_list(res, lifted_arithmetic(*x, kind)),
{
    let step: bool = x.mnemonic == MNEMONIC_INC || x.mnemonic == MNEMONIC_DEC;
    let rhs: Option<IRExpr> = if step {
        Some(IRExpr::CU8(1))
    } else {
        lift_op(x, &x.second)
    };
    match (lift_op(x, &x.first), rhs) {
        (Some(operand), Some(rhs)) => {
            let result: IRExpr = bin_op(kind, operand.clone(), rhs);
            let flags: FlagSet = if step {
                flags_of_step()
            } else {
                flags_of_step().with(NativeFlag::Carry)
            };
            let mut res: Vec<IRInst> = Vec::new();
            res.push(IRInst::SetFlagsFrom(flags, result.clone()));
            res.push(IRInst::Asgn { dest: operand, src: result });
            assert(res@ =~= lifted_arithmetic(*x, kind)->0);
            Some(res)
        },
        _ => None,
    }
}

pub open spec fn lifted_movsxd(x: Decoded) -> Option<Seq<IRInst>> {
    assigned(
        operand_value(x, x.first),
        match operand_value(x, x.second) {
            Some(value) => Some(sign_extended(value, 8)),
            None => None,
        },
    )
}

fn lift_movsxd(x: &Decoded) -> (res: Option<Vec<IRInst>>)
    ensures
        matches_list(res, lifted_movsxd(*x)),
{
    let src: Option<IRExpr> = match lift_op(x, &x.second) {
        Some(value) => Some(IRExpr::SignExtend { value: Box::new(value), size: 8 }),
        None => None,
    };
    assign(lift_op(x, &x.first), src)
}

pub open spec fn cleared_by_logic() -> FlagSet {
    FlagSet::none().adding(NativeFlag::Carry).adding(NativeFlag::Overflow)
}

pub open spec fn undefined_by_logic() -> FlagSet {
    FlagSet::none().adding(NativeFlag::AuxCarry)
}

pub open spec fn set_by_logic() -> FlagSet {
    FlagSet::none().adding(NativeFlag::Sign).adding(NativeFlag::Zero).adding(NativeFlag::Parity)
}

/// The flags that a logical operation leaves behind.
pub open spec fn logic_flags(result: IRExpr) -> Seq<IRInst> {
    seq![
        IRInst::ClearFlags(cleared_by_logic()),
        IRInst::InvalidateFlags(undefined_by_logic()),
        IRInst::SetFlagsFrom(set_by_logic(), result),
    ]
}

fn flags_of_logic(result: IRExpr) -> (res: Vec<IRInst>)
    ensures
        res@ == logic_flags(result),
{
    let mut res: Vec<IRInst> = Vec::new();
    res.push(
        IRInst::ClearFlags(FlagSet::new().with(NativeFlag::Carry).with(NativeFlag::Overflow)),
    );
    res.push(IRInst::InvalidateFlags(FlagSet::new().with(NativeFlag::AuxCarry)));
    res.push(
        IRInst::SetFlagsFrom(
            FlagSet::new().with(NativeFlag::Sign).with(NativeFlag::Zero).with(NativeFlag::Parity),
            result,
        ),
    );
    res
}

pub open spec fn lifted_cond(x: Decoded) -> Option<Seq<IRInst>> {
    match (operand_value(x, x.first), operand_value(x, x.second)) {
        (Some(left), Some(right)) => if x.mnemonic == MNEMONIC_TEST {
            if x.code == CODE_TEST_RM8_R8 || x.code == CODE_TEST_RM32_R32 || x.code
                == CODE_TEST_RM64_R64 {
                Some(logic_flags(operation(IRBinOpKind::And, left, right)))
            } else {
                None
            }
        } else {
            Some(
                seq![
                    IRInst::SetFlagsFrom(
                        arithmetic_flags(),
                        operation(IRBinOpKind::Sub, left, right),
                    ),
                ],
            )
        },
        _ => None,
    }
}

fn lift_cond(x: &Decoded) -> (res: Option<Vec<IRInst>>)
    ensures
        matches_list(res, lifted_cond(*x)),
{
    match (lift_op(x, &x.first), lift_op(x, &x.second)) {
        (Some(left), Some(right)) => {
            if x.mnemonic == MNEMONIC_TEST {
                if x.code == CODE_TEST_RM8_R8 || x.code == CODE_TEST_RM32_R32 || x.code
                    == CODE_TEST_RM64_R64 {
                    Some(flags_of_logic(bin_op(IRBinOpKind::And, left, right)))
                } else {
                    None
                }
            } else {
                let mut res: Vec<IRInst> = Vec::new();
                res.push(
                    IRInst::SetFlagsFrom(
                        flags_of_step().with(NativeFlag::Carry),
                        bin_op(IRBinOpKind::Sub, left, right),
                    ),
                );
                Some(res)
            }
        },
        _ => None,
    }
}

pub open spec fn is_signed_jump(code: u32) -> bool {
    code == CODE_JG_REL8_64 || code == CODE_JG_REL32_64 || code == CODE_JL_REL8_64 || code
        == CODE_JL_REL32_64 || code == CODE_JGE_REL8_64 || code == CODE_JGE_REL32_64 || code
        == CODE_JLE_REL8_64 || code == CODE_JLE_REL32_64
}

/// The condition of a signed jump, from the operands of the compare before it.
pub open spec fn signed_condition(mnemonic: u32, left: IRExpr, right: IRExpr) -> IRExpr {
    let greater = if mnemonic == MNEMONIC_JL || mnemonic == MNEMONIC_JGE {
        operation(IRBinOpKind::SignedGt, right, left)
    } else {
        operation(IRBinOpKind::SignedGt, left, right)
    };
    if mnemonic == MNEMONIC_JGE || mnemonic == MNEMONIC_JLE {
        operation(IRBinOpKind::Eq, greater, IRExpr::CU8(0))
    } else {
        greater
    }
}

/// The condition under which a conditional jump is taken.
pub open spec fn jump_condition(x: Decoded, compare: Option<(IRExpr, IRExpr)>) -> Option<IRExpr> {
    let code = x.code;
    if is_signed_jump(code) {
        match compare {
            Some((left, right)) => Some(signed_condition(x.mnemonic, left, right)),
            None => None,
        }
    } else if code == CODE_JE_REL8_64 || code == CODE_JE_REL32_64 || code == CODE_JNE_REL8_64
        || code == CODE_JNE_REL32_64 {
        Some(
            operation(
                IRBinOpKind::Eq,
                IRExpr::Flag(NativeFlag::Zero),
                IRExpr::CU8(
                    if x.mnemonic == MNEMONIC_JE {
                        1
                    } else {
                        0
                    },
                ),
            ),
        )
    } else if code == CODE_JB_REL8_64 {
        Some(operation(IRBinOpKind::Eq, IRExpr::Flag(NativeFlag::Carry), IRExpr::CU8(1)))
    } else if code == CODE_JAE_REL8_64 {
        Some(operation(IRBinOpKind::Eq, IRExpr::Flag(NativeFlag::Carry), IRExpr::CU8(0)))
    } else if code == CODE_JBE_REL8_64 {
        Some(
            operation(
                IRBinOpKind::Or,
                IRExpr::Flag(NativeFlag::Carry),
                IRExpr::Flag(NativeFlag::Zero),
            ),
        )
    } else {
        None
    }
}

pub open spec fn lifted_jump(x: Decoded, compare: Option<(IRExpr, IRExpr)>) -> Option<
    Seq<IRInst>,
> {
    match (jump_condition(x, compare), operand_value(x, x.first)) {
        (Some(condition), Some(target)) => Some(
            seq![IRInst::If(condition, Box::new(IRInst::Jmp(target)))],
        ),
        _ => None,
    }
}

fn condition_of_jump(x: &Decoded, compare: &Option<(IRExpr, IRExpr)>) -> (res: Option<IRExpr>)
    ensures
        res == jump_condition(*x, *compare),
{
    let code: u32 = x.code;
    if code == CODE_JG_REL8_64 || code == CODE_JG_REL32_64 || code == CODE_JL_REL8_64 || code
        == CODE_JL_REL32_64 || code == CODE_JGE_REL8_64 || code == CODE_JGE_REL32_64 || code
        == CODE_JLE_REL8_64 || code == CODE_JLE_REL32_64 {
        match compare {
            Some((left, right)) => {
                let greater: IRExpr = if x.mnemonic == MNEMONIC_JL || x.mnemonic
                    == MNEMONIC_JGE {
                    bin_op(IRBinOpKind::SignedGt, right.clone(), left.clone())
                } else {
                    bin_op(IRBinOpKind::SignedGt, left.clone(), right.clone())
                };
                if x.mnemonic == MNEMONIC_JGE || x.mnemonic == MNEMONIC_JLE {
                    Some(bin_op(IRBinOpKind::Eq, greater, IRExpr::CU8(0)))
                } else {
                    Some(greater)
                }
            },
            None => None,
        }
    } else if code == CODE_JE_REL8_64 || code == CODE_JE_REL32_64 || code == CODE_JNE_REL8_64
        || code == CODE_JNE_REL32_64 {
        let expected: u8 = if x.mnemonic == MNEMONIC_JE {
            1
        } else {
            0
        };
        Some(bin_op(IRBinOpKind::Eq, IRExpr::Flag(NativeFlag::Zero), IRExpr::CU8(expected)))
    } else if code == CODE_JB_REL8_64 {
        Some(bin_op(IRBinOpKind::Eq, IRExpr::Flag(NativeFlag::Carry), IRExpr::CU8(1)))
    } else if code == CODE_JAE_REL8_64 {
        Some(bin_op(IRBinOpKind::Eq, IRExpr::Flag(NativeFlag::Carry), IRExpr::CU8(0)))
    } else if code == CODE_JBE_REL8_64 {
        Some(
            bin_op(
                IRBinOpKind::Or,
                IRExpr::Flag(NativeFlag::Carry),
                IRExpr::Flag(NativeFlag::Zero),
            ),
        )
    } else {
        None
    }
}

fn lift_jmp(x: &Decoded, signed_compare: &Option<(IRExpr, IRExpr)>) -> (res: Option<Vec<IRInst>>)
    ensures
        matches_list(res, lifted_jump(*x, *signed_compare)),
{
    match (condition_of_jump(x, signed_compare), lift_op(x, &x.first)) {
        (Some(condition), Some(target)) => {
            let mut res: Vec<IRInst> = Vec::new();
            res.push(IRInst::If(condition, Box::new(IRInst::Jmp(target))));
            Some(res)
        },
        _ => None,
    }
}

/// A count in CL is taken modulo the width.
pub open spec fn shift_count(x: Decoded, count: IRExpr) -> IRExpr {
    match count {
        IRExpr::Reg(register) => if register.number == CL {
            let width = if x.first.kind == OPERAND_REGISTER {
                register_width(x.first.register.number)
            } else {
                x.memory_width
            };
            operation(
                IRBinOpKind::And,
                count,
                IRExpr::CU8(
                    if width == 8 {
                        63
                    } else {
                        31
                    },
                ),
            )
        } else {
            count
        },
        _ => count,
    }
}

pub open spec fn lifted_shift(x: Decoded, kind: IRBinOpKind) -> Option<Seq<IRInst>> {
    match (operand_value(x, x.first), operand_value(x, x.second)) {
        (Some(operand), Some(count)) => {
            let result = operation(kind, operand, shift_count(x, count));
            Some(
                seq![
                    IRInst::SetFlagsFrom(arithmetic_flags(), result),
                    IRInst::Asgn { dest: operand, src: result },
                ],
            )
        },
        _ => None,
    }
}

fn lift_shift(x: &Decoded, kind: IRBinOpKind) -> (res: Option<Vec<IRInst>>)
    ensures
        matches_list(res, lifted_shift(*x, kind)),
{
    match (lift_op(x, &x.first), lift_op(x, &x.second)) {
        (Some(operand), Some(count)) => {
            let by_register: bool = match &count {
                IRExpr::Reg(register) => register.number == CL,
                _ => false,
            };
            let count: IRExpr = if by_register {
                let width: usize = if x.first.kind == OPERAND_REGISTER {
                    x.first.register.size()
                } else {
                    x.memory_width
                };
                let mask: u8 = if width == 8 {
                    63
                } else {
                    31
                };
                bin_op(IRBinOpKind::And, count, IRExpr::CU8(mask))
            } else {
                count
            };
            let result: IRExpr = bin_op(kind, operand.clone(), count);
            let mut res: Vec<IRInst> = Vec::new();
            res.push(
                IRInst::SetFlagsFrom(flags_of_step().with(NativeFlag::Carry), result.clone()),
            );
            res.push(IRInst::Asgn { dest: operand, src: result });
            assert(res@ =~= lifted_shift(*x, kind)->0);
            Some(res)
        },
        _ => None,
    }
}

/// A register combined with itself is zero; nothing else is supported.
pub open spec fn lifted_xor(x: Decoded) -> Option<Seq<IRInst>> {
    if x.first.kind == OPERAND_REGISTER && x.second.kind == OPERAND_REGISTER && x.first.register
        == x.second.register && (x.code == CODE_XOR_R32_RM32 || x.code == CODE_XOR_RM32_R32) {
        Some(
            logic_flags(IRExpr::CU32(0)).push(
                IRInst::Asgn { dest: IRExpr::Reg(x.first.register), src: IRExpr::CU32(0) },
            ),
        )
    } else {
        None
    }
}

fn lift_xor(x: &Decoded) -> (res: Option<Vec<IRInst>>)
    ensures
        matches_list(res, lifted_xor(*x)),
{
    if !(x.first.kind == OPERAND_REGISTER && x.second.kind == OPERAND_REGISTER && x.first.register
        == x.second.register && (x.code == CODE_XOR_R32_RM32 || x.code == CODE_XOR_RM32_R32)) {
        return None;
    }
    let mut res: Vec<IRInst> = flags_of_logic(IRExpr::CU32(0));
    res.push(IRInst::Asgn { dest: IRExpr::Reg(x.first.register), src: IRExpr::CU32(0) });
    Some(res)
}

pub open spec fn lifted_ret(x: Decoded) -> Option<Seq<IRInst>> {
    if x.code == CODE_RETNQ {
        Some(seq![IRInst::Ret(None)])
    } else {
        None
    }
}

fn lift_ret(x: &Decoded) -> (res: Option<Vec<IRInst>>)
    ensures
        matches_list(res, lifted_ret(*x)),
{
    if x.code == CODE_RETNQ {
        let mut res: Vec<IRInst> = Vec::new();
        res.push(IRInst::Ret(None));
        Some(res)
    } else {
        None
    }
}

/// A conditional move keeps its destination where the zero flag is set.
pub open spec fn lifted_cmov(x: Decoded) -> Option<Seq<IRInst>> {
    match (operand_value(x, x.first), operand_value(x, x.second)) {
        (Some(dest), Some(src)) => Some(
            seq![
                IRInst::If(
                    operation(IRBinOpKind::Eq, IRExpr::Flag(NativeFlag::Zero), IRExpr::CU8(0)),
                    Box::new(IRInst::Asgn { dest, src }),
                ),
            ],
        ),
        _ => None,
    }
}

fn lift_cmov(x: &Decoded) -> (res: Option<Vec<IRInst>>)
    ensures
        matches_list(res, lifted_cmov(*x)),
{
    match (lift_op(x, &x.first), lift_op(x, &x.second)) {
        (Some(dest), Some(src)) => {
            let mut res: Vec<IRInst> = Vec::new();
            res.push(
                IRInst::If(
                    bin_op(IRBinOpKind::Eq, IRExpr::Flag(NativeFlag::Zero), IRExpr::CU8(0)),
                    Box::new(IRInst::Asgn { dest, src }),
                ),
            );
            Some(res)
        },
        _ => None,
    }
}

pub open spec fn lifted_direct_jump(x: Decoded) -> Option<Seq<IRInst>> {
    match operand_value(x, x.first) {
        Some(target) => Some(seq![IRInst::Jmp(target)]),
        None => None,
    }
}

/// Whether the first operand is a 64-bit general purpose register.
pub open spec fn is_quad_register(x: Decoded) -> bool {
    x.first.kind == OPERAND_REGISTER && 53 <= x.first.register.number <= 68
}

/// What has been lifted so far: the instructions, the operands of an immediately
/// preceding compare, and how far the stack pointer lies below its entry value.
pub struct Progress {
    pub instructions: Seq<(usize, IRInst)>,
    pub compare: Option<(IRExpr, IRExpr)>,
    pub depth: i64,
}

/// The operations of an instruction, and the stack depth after it.
pub open spec fn lifted_one(x: Decoded, compare: Option<(IRExpr, IRExpr)>, depth: i64) -> Option<
    (Seq<IRInst>, i64),
> {
    let m = x.mnemonic;
    if m == MNEMONIC_PUSH {
        if is_quad_register(x) && depth <= i64::MAX - 8 {
            Some(
                (
                    seq![
                        IRInst::Asgn {
                            dest: IRExpr::Stack { offset: (-(depth + 8)) as i64, size: 8 },
                            src: IRExpr::Reg(x.first.register),
                        },
                    ],
                    (depth + 8) as i64,
                ),
            )
        } else {
            None
        }
    } else if m == MNEMONIC_POP {
        if is_quad_register(x) && depth >= i64::MIN + 8 {
            Some(
                (
                    seq![
                        IRInst::Asgn {
                            dest: IRExpr::Reg(x.first.register),
                            src: IRExpr::Stack { offset: (-depth) as i64, size: 8 },
                        },
                    ],
                    (depth - 8) as i64,
                ),
            )
        } else {
            None
        }
    } else {
        match lifted_plain(x, compare) {
            Some(instructions) => Some((instructions, depth)),
            None => None,
        }
    }
}

/// The operations of an instruction that leaves the stack pointer alone.
pub open spec fn lifted_plain(x: Decoded, compare: Option<(IRExpr, IRExpr)>) -> Option<
    Seq<IRInst>,
> {
    let m = x.mnemonic;
    if m == MNEMONIC_MOV {
        lifted_mov(x)
    } else if m == MNEMONIC_MOVSXD {
        lifted_movsxd(x)
    } else if m == MNEMONIC_MOVZX || m == MNEMONIC_MOVSX {
        lifted_extend(x)
    } else if m == MNEMONIC_LEA {
        lifted_lea(x)
    } else if m == MNEMONIC_IMUL {
        lifted_imul(x)
    } else if m == MNEMONIC_ADD || m == MNEMONIC_INC {
        lifted_arithmetic(x, IRBinOpKind::Add)
    } else if m == MNEMONIC_SUB || m == MNEMONIC_DEC {
        lifted_arithmetic(x, IRBinOpKind::Sub)
    } else if m == MNEMONIC_CMOVNE {
        lifted_cmov(x)
    } else if m == MNEMONIC_TEST || m == MNEMONIC_CMP {
        lifted_cond(x)
    } else if m == MNEMONIC_JG || m == MNEMONIC_JL || m == MNEMONIC_JGE || m == MNEMONIC_JLE {
        lifted_jump(x, compare)
    } else if m == MNEMONIC_JE || m == MNEMONIC_JNE || m == MNEMONIC_JB || m == MNEMONIC_JAE || m
        == MNEMONIC_JBE {
        lifted_jump(x, None)
    } else if m == MNEMONIC_JMP {
        lifted_direct_jump(x)
    } else if m == MNEMONIC_SHL {
        lifted_shift(x, IRBinOpKind::Shl)
    } else if m == MNEMONIC_SHR {
        lifted_shift(x, IRBinOpKind::Shr)
    } else if m == MNEMONIC_XOR {
        lifted_xor(x)
    } else if m == MNEMONIC_RET {
        lifted_ret(x)
    } else if m == MNEMONIC_NOP {
        Some(Seq::empty())
    } else {
        None
    }
}

fn lift_plain(x: &Decoded, compare: &Option<(IRExpr, IRExpr)>) -> (res: Option<Vec<IRInst>>)
    ensures
        matches_list(res, lifted_plain(*x, *compare)),
{
    let m: u32 = x.mnemonic;
    if m == MNEMONIC_MOV {
        lift_mov(x)
    } else if m == MNEMONIC_MOVSXD {
        lift_movsxd(x)
    } else if m == MNEMONIC_MOVZX || m == MNEMONIC_MOVSX {
        lift_extend(x)
    } else if m == MNEMONIC_LEA {
        lift_lea(x)
    } else if m == MNEMONIC_IMUL {
        lift_imul(x)
    } else if m == MNEMONIC_ADD || m == MNEMONIC_INC {
        lift_arithmetic(x, IRBinOpKind::Add)
    } else if m == MNEMONIC_SUB || m == MNEMONIC_DEC {
        lift_arithmetic(x, IRBinOpKind::Sub)
    } else if m == MNEMONIC_CMOVNE {
        lift_cmov(x)
    } else if m == MNEMONIC_TEST || m == MNEMONIC_CMP {
        lift_cond(x)
    } else if m == MNEMONIC_JG || m == MNEMONIC_JL || m == MNEMONIC_JGE || m == MNEMONIC_JLE {
        lift_jmp(x, compare)
    } else if m == MNEMONIC_JE || m == MNEMONIC_JNE || m == MNEMONIC_JB || m == MNEMONIC_JAE || m
        == MNEMONIC_JBE {
        lift_jmp(x, &None)
    } else if m == MNEMONIC_JMP {
        match lift_op(x, &x.first) {
            Some(target) => {
                let mut res: Vec<IRInst> = Vec::new();
                res.push(IRInst::Jmp(target));
                Some(res)
            },
            None => None,
        }
    } else if m == MNEMONIC_SHL {
        lift_shift(x, IRBinOpKind::Shl)
    } else if m == MNEMONIC_SHR {
        lift_shift(x, IRBinOpKind::Shr)
    } else if m == MNEMONIC_XOR {
        lift_xor(x)
    } else if m == MNEMONIC_RET {
        lift_ret(x)
    } else if m == MNEMONIC_NOP {
        Some(Vec::new())
    } else {
        None
    }
}

/// The operations, resolved and at the address.
pub open spec fn placed(instructions: Seq<IRInst>, offset: usize, depth: i64) -> Option<
    Seq<(usize, IRInst)>,
>
    decreases instructions.len(),
{
    if instructions.len() == 0 {
        Some(Seq::empty())
    } else {
        match (
            placed(instructions.drop_last(), offset, depth),
            resolved_instruction(instructions.last(), depth),
        ) {
            (Some(before), Some(instr)) => Some(before.push((offset, instr))),
            _ => None,
        }
    }
}

/// The operands of a compare, for a signed jump right after it.
pub open spec fn compared(x: Decoded) -> Option<(IRExpr, IRExpr)> {
    if x.mnemonic == MNEMONIC_CMP {
        match (operand_value(x, x.first), operand_value(x, x.second)) {
            (Some(left), Some(right)) => Some((left, right)),
            _ => None,
        }
    } else {
        None
    }
}

/// The progress after one more instruction.
pub open spec fn after_instruction(progress: Progress, x: Decoded) -> Option<Progress> {
    match lifted_one(x, progress.compare, progress.depth) {
        Some((instructions, depth)) => if x.ip <= usize::MAX {
            match placed(instructions, x.ip as usize, depth) {
                Some(added) => Some(
                    Progress {
                        instructions: progress.instructions + added,
                        compare: compared(x),
                        depth,
                    },
                ),
                None => None,
            }
        } else {
            None
        },
        None => None,
    }
}

/// The progress after a list of instructions. There is none where one of them is
/// not supported.
pub open spec fn progress_after(decoded: Seq<Decoded>) -> Option<Progress>
    decreases decoded.len(),
{
    if decoded.len() == 0 {
        Some(Progress { instructions: Seq::empty(), compare: None, depth: 0 })
    } else {
        match progress_after(decoded.drop_last()) {
            Some(progress) => after_instruction(progress, decoded.last()),
            None => None,
        }
    }
}

/// The tier 0 program of a list of instructions. There is none where an
/// instruction is not supported, or the stack is left unbalanced.
pub open spec fn program_of(decoded: Seq<Decoded>, entry_address: usize) -> Option<ProgramModel> {
    match progress_after(decoded) {
        Some(progress) => if progress.depth == 0 {
            Some(ProgramModel { entry_address, instructions: progress.instructions })
        } else {
            None
        },
        None => None,
    }
}

proof fn lemma_no_progress(decoded: Seq<Decoded>, count: int)
    requires
        0 <= count <= decoded.len(),
        progress_after(decoded.subrange(0, count)) is None,
    ensures
        progress_after(decoded) is None,
    decreases decoded.len() - count,
{
    if count < decoded.len() {
        assert(decoded.subrange(0, count + 1).drop_last() =~= decoded.subrange(0, count));
        lemma_no_progress(decoded, count + 1);
    } else {
        assert(decoded.subrange(0, count) =~= decoded);
    }
}

/// Appends the operations, resolved and at the address. Says whether all of them
/// could be resolved.
fn place(
    out: &mut Vec<(usize, IRInst)>,
    instructions: &Vec<IRInst>,
    offset: usize,
    depth: i64,
) -> (res: bool)
    ensures
        res == (placed(instructions@, offset, depth) is Some),
        res ==> final(out)@ == old(out)@ + placed(instructions@, offset, depth)->0,
{
    let mut i: usize = 0;
    assert(instructions@.subrange(0, 0) =~= Seq::<IRInst>::empty());
    assert(out@ =~= old(out)@ + Seq::<(usize, IRInst)>::empty());
    while i < instructions.len()
        invariant
            i <= instructions@.len(),
            placed(instructions@.subrange(0, i as int), offset, depth) is Some,
            out@ == old(out)@ + placed(instructions@.subrange(0, i as int), offset, depth)->0,
        decreases instructions@.len() - i,
    {
        let ghost prefix = instructions@.subrange(0, i + 1);
        assert(prefix.drop_last() =~= instructions@.subrange(0, i as int));
        match resolve_stack(&instructions[i], depth) {
            Some(instr) => {
                out.push((offset, instr));
                assert(out@ =~= old(out)@ + placed(prefix, offset, depth)->0);
            },
            None => {
                proof {
                    lemma_not_placed(instructions@, offset, depth, i + 1);
                }
                return false;
            },
        }
        i = i + 1;
    }
    assert(instructions@.subrange(0, i as int) =~= instructions@);
    true
}

proof fn lemma_not_placed(instructions: Seq<IRInst>, offset: usize, depth: i64, count: int)
    requires
        0 <= count <= instructions.len(),
        placed(instructions.subrange(0, count), offset, depth) is None,
    ensures
        placed(instructions, offset, depth) is None,
    decreases instructions.len() - count,
{
    if count < instructions.len() {
        assert(instructions.subrange(0, count + 1).drop_last() =~= instructions.subrange(
            0,
            count,
        ));
        lemma_not_placed(instructions, offset, depth, count + 1);
    } else {
        assert(instructions.subrange(0, count) =~= instructions);
    }
}

/// Lifts one instruction, and returns the stack depth after it.
fn lift_one(x: &Decoded, compare: &Option<(IRExpr, IRExpr)>, depth: i64) -> (res: Option<
    (Vec<IRInst>, i64),
>)
    ensures
        match (res, lifted_one(*x, *compare, depth)) {
            (Some((list, after)), Some((model, depth))) => list@ == model && after == depth,
            (None, None) => true,
            _ => false,
        },
{
    if x.mnemonic == MNEMONIC_PUSH {
        if x.first.kind != OPERAND_REGISTER || !x.first.register.is_gpr64() || depth > i64::MAX
            - 8 {
            return None;
        }
        let depth: i64 = depth + 8;
        if depth == i64::MIN {
            return None;
        }
        let mut list: Vec<IRInst> = Vec::new();
        list.push(
            IRInst::Asgn {
                dest: IRExpr::Stack { offset: -depth, size: 8 },
                src: IRExpr::Reg(x.first.register),
            },
        );
        Some((list, depth))
    } else if x.mnemonic == MNEMONIC_POP {
        if x.first.kind != OPERAND_REGISTER || !x.first.register.is_gpr64() || depth < i64::MIN
            + 8 {
            return None;
        }
        let mut list: Vec<IRInst> = Vec::new();
        list.push(
            IRInst::Asgn {
                dest: IRExpr::Reg(x.first.register),
                src: IRExpr::Stack { offset: -depth, size: 8 },
            },
        );
        Some((list, depth - 8))
    } else {
        match lift_plain(x, compare) {
            Some(list) => Some((list, depth)),
            None => None,
        }
    }
}

/// Lifts a list of decoded instructions, if every one of them is supported and
/// the stack is balanced at the end.
pub fn lift_decoded(decoded: &Vec<Decoded>, entry_address: usize) -> (res: Option<Program>)
    ensures
        match (res, program_of(decoded@, entry_address)) {
            (Some(program), Some(model)) => program.model() == model,
            (None, None) => true,
            _ => false,
        },
{
    let mut instructions: Vec<(usize, IRInst)> = Vec::new();
    let mut compare: Option<(IRExpr, IRExpr)> = None;
    let mut depth: i64 = 0;
    let mut i: usize = 0;
    assert(decoded@.subrange(0, 0) =~= Seq::<Decoded>::empty());
    while i < decoded.len()
        invariant
            i <= decoded@.len(),
            progress_after(decoded@.subrange(0, i as int)) == Some(
                Progress { instructions: instructions@, compare, depth },
            ),
        decreases decoded@.len() - i,
    {
        let ghost prefix = decoded@.subrange(0, i + 1);
        assert(prefix.drop_last() =~= decoded@.subrange(0, i as int));
        let x = decoded[i];
        assert(prefix.last() == x);
        match lift_one(&x, &compare, depth) {
            Some((list, after)) => {
                if x.ip > usize::MAX as u64 {
                    proof {
                        lemma_no_progress(decoded@, i + 1);
                    }
                    return None;
                }
                if !place(&mut instructions, &list, x.ip as usize, after) {
                    proof {
                        lemma_no_progress(decoded@, i + 1);
                    }
                    return None;
                }
                depth = after;
            },
            None => {
                proof {
                    lemma_no_progress(decoded@, i + 1);
                }
                return None;
            },
        }
        compare = if x.mnemonic == MNEMONIC_CMP {
            match (lift_op(&x, &x.first), lift_op(&x, &x.second)) {
                (Some(left), Some(right)) => Some((left, right)),
                _ => None,
            }
        } else {
            None
        };
        i = i + 1;
    }
    assert(decoded@.subrange(0, i as int) =~= decoded@);
    if depth != 0 {
        return None;
    }
    Some(Program { entry_address, instructions })
}

// ---------------------------------------------------------------------------
// Machine code

/// The address of the byte at `position`.
pub open spec fn address_at(base: usize, position: int) -> u64 {
    ((base + position) % 0x1_0000_0000_0000_0000) as u64
}

/// The instructions of the code from `position` on.
pub open spec fn decoded_from(code: Seq<u8>, base: usize, position: int) -> Seq<Decoded>
    decreases code.len() - position,
{
    if position < 0 || position >= code.len() {
        Seq::empty()
    } else {
        let x = decoded(code.subrange(position, code.len() as int), address_at(base, position));
        if 1 <= x.length <= code.len() - position {
            seq![x] + decoded_from(code, base, position + x.length)
        } else {
            seq![x]
        }
    }
}

/// The instructions of the code, one after the other.
pub fn decode_all(code: &[u8], base_offset: usize) -> (res: Vec<Decoded>)
    ensures
        res@ == decoded_from(code@, base_offset, 0),
{
    let mut res: Vec<Decoded> = Vec::new();
    let total: usize = code.len();
    let mut position: usize = 0;
    assert(res@ + decoded_from(code@, base_offset, 0) =~= decoded_from(code@, base_offset, 0));
    while position < total
        invariant
            position <= total,
            total == code@.len(),
            decoded_from(code@, base_offset, 0) == res@ + decoded_from(
                code@,
                base_offset,
                position as int,
            ),
        decreases total - position,
    {
        let ip: u64 = (base_offset as u64).wrapping_add(position as u64);
        proof {
            vstd::arithmetic::div_mod::lemma_small_mod(
                ip as nat,
                0x1_0000_0000_0000_0000,
            );
            if base_offset + position > u64::MAX {
                vstd::arithmetic::div_mod::lemma_mod_multiples_vanish(
                    1,
                    ip as int,
                    0x1_0000_0000_0000_0000,
                );
            }
            assert(ip == address_at(base_offset, position as int));
        }
        let x = decode(vstd::slice::slice_subrange(code, position, total), ip);
        let ghost before = res@;
        res.push(x);
        proof {
            assert(before + (seq![x] + decoded_from(code@, base_offset, position + x.length))
                =~= res@ + decoded_from(code@, base_offset, position + x.length));
        }
        position = position + x.length;
    }
    assert(res@ =~= decoded_from(code@, base_offset, 0));
    res
}

/// The tier 0 program of machine code at an address.
pub open spec fn program_of_code(code: Seq<u8>, base_offset: usize) -> Option<ProgramModel> {
    program_of(decoded_from(code, base_offset, 0), base_offset)
}

/// Lifts machine code, if every instruction is supported and the stack is
/// balanced at the end.
pub fn try_lift_to_irt0(code: &[u8], base_offset: usize) -> (res: Option<Program>)
    ensures
        match (res, program_of_code(code@, base_offset)) {
            (Some(program), Some(model)) => program.model() == model,
            (None, None) => true,
            _ => false,
        },
{
    lift_decoded(&decode_all(code, base_offset), base_offset)
}

// ---------------------------------------------------------------------------
// Laws

/// Whether the expression mentions the stack pointer.
pub open spec fn mentions_stack_pointer(expr: IRExpr) -> bool
    decreases expr,
{
    match expr {
        IRExpr::Reg(register) => register.number == RSP,
        IRExpr::BinOp { lhs, rhs, .. } => mentions_stack_pointer(*lhs) || mentions_stack_pointer(
            *rhs,
        ),
        IRExpr::Deref { address, .. } => mentions_stack_pointer(*address),
        IRExpr::ExtractBytes { value, .. } => mentions_stack_pointer(*value),
        IRExpr::ZeroExtend { value, .. } => mentions_stack_pointer(*value),
        IRExpr::SignExtend { value, .. } => mentions_stack_pointer(*value),
        _ => false,
    }
}

pub open spec fn instruction_mentions_stack_pointer(instr: IRInst) -> bool
    decreases instr,
{
    match instr {
        IRInst::Asgn { dest, src } => mentions_stack_pointer(dest) || mentions_stack_pointer(src),
        IRInst::If(condition, inner) => mentions_stack_pointer(condition)
            || instruction_mentions_stack_pointer(*inner),
        IRInst::Jmp(target) => mentions_stack_pointer(target),
        IRInst::Ret(Some(value)) => mentions_stack_pointer(value),
        IRInst::SetFlagsFrom(_, expr) => mentions_stack_pointer(expr),
        _ => false,
    }
}

/// A resolved expression does not mention the stack pointer, and resolving it
/// again changes nothing.
pub proof fn law_resolved_has_no_stack_pointer(expr: IRExpr, depth: i64, other: i64)
    requires
        resolved(expr, depth) is Some,
    ensures
        !mentions_stack_pointer(resolved(expr, depth)->0),
        resolved(resolved(expr, depth)->0, other) == resolved(expr, depth),
    decreases expr,
{
    match expr {
        IRExpr::BinOp { lhs, rhs, .. } => {
            law_resolved_has_no_stack_pointer(*lhs, depth, other);
            law_resolved_has_no_stack_pointer(*rhs, depth, other);
        },
        IRExpr::Deref { address, .. } => {
            if stack_displacement(*address) is None {
                law_resolved_has_no_stack_pointer(*address, depth, other);
                let again = resolved(*address, depth)->0;
                assert(!mentions_stack_pointer(again));
                assert(stack_displacement(again) is None) by {
                    match again {
                        IRExpr::BinOp { lhs, rhs, .. } => {
                            assert(!mentions_stack_pointer(*lhs));
                        },
                        _ => {},
                    }
                }
            }
        },
        IRExpr::ExtractBytes { value, .. } => {
            law_resolved_has_no_stack_pointer(*value, depth, other);
        },
        IRExpr::ZeroExtend { value, .. } => {
            law_resolved_has_no_stack_pointer(*value, depth, other);
        },
        IRExpr::SignExtend { value, .. } => {
            law_resolved_has_no_stack_pointer(*value, depth, other);
        },
        _ => {},
    }
}

proof fn lemma_resolved_instruction(instr: IRInst, depth: i64)
    requires
        resolved_instruction(instr, depth) is Some,
    ensures
        !instruction_mentions_stack_pointer(resolved_instruction(instr, depth)->0),
    decreases instr,
{
    match instr {
        IRInst::Asgn { dest, src } => {
            law_resolved_has_no_stack_pointer(dest, depth, depth);
            law_resolved_has_no_stack_pointer(src, depth, depth);
        },
        IRInst::If(condition, inner) => {
            law_resolved_has_no_stack_pointer(condition, depth, depth);
            lemma_resolved_instruction(*inner, depth);
        },
        IRInst::Jmp(target) => {
            law_resolved_has_no_stack_pointer(target, depth, depth);
        },
        IRInst::Ret(Some(value)) => {
            law_resolved_has_no_stack_pointer(value, depth, depth);
        },
        IRInst::SetFlagsFrom(_, expr) => {
            law_resolved_has_no_stack_pointer(expr, depth, depth);
        },
        _ => {},
    }
}

proof fn lemma_placed(instructions: Seq<IRInst>, offset: usize, depth: i64)
    requires
        placed(instructions, offset, depth) is Some,
    ensures
        forall|i: int|
            0 <= i < placed(instructions, offset, depth)->0.len()
                ==> !instruction_mentions_stack_pointer(
                (#[trigger] placed(instructions, offset, depth)->0[i]).1,
            ),
    decreases instructions.len(),
{
    if instructions.len() > 0 {
        lemma_placed(instructions.drop_last(), offset, depth);
        lemma_resolved_instruction(instructions.last(), depth);
    }
}

proof fn lemma_progress_resolved(decoded: Seq<Decoded>)
    requires
        progress_after(decoded) is Some,
    ensures
        forall|i: int|
            0 <= i < progress_after(decoded)->0.instructions.len()
                ==> !instruction_mentions_stack_pointer(
                (#[trigger] progress_after(decoded)->0.instructions[i]).1,
            ),
    decreases decoded.len(),
{
    if decoded.len() > 0 {
        lemma_progress_resolved(decoded.drop_last());
        let before = progress_after(decoded.drop_last())->0;
        let x = decoded.last();
        let (list, depth) = lifted_one(x, before.compare, before.depth)->0;
        lemma_placed(list, x.ip as usize, depth);
        let after = progress_after(decoded)->0;
        let added = placed(list, x.ip as usize, depth)->0;
        assert forall|i: int|
            0 <= i < after.instructions.len() implies !instruction_mentions_stack_pointer(
            (#[trigger] after.instructions[i]).1,
        ) by {
            if i < before.instructions.len() {
                assert(after.instructions[i] == before.instructions[i]);
            } else {
                assert(after.instructions[i] == added[i - before.instructions.len()]);
            }
        }
    }
}

/// No instruction of a lifted program mentions the stack pointer: every stack
/// access is at a fixed offset from its entry value.
pub proof fn law_lifted_programs_have_no_stack_pointer(
    decoded: Seq<Decoded>,
    entry_address: usize,
    i: int,
)
    requires
        program_of(decoded, entry_address) is Some,
        0 <= i < program_of(decoded, entry_address)->0.instructions.len(),
    ensures
        !instruction_mentions_stack_pointer(
            program_of(decoded, entry_address)->0.instructions[i].1,
        ),
{
    lemma_progress_resolved(decoded);
}

} // verus!
