//! What the operations of tier 0 do to the state of a processor, and that they do
//! what the lifted instructions do to it.
use super::ir::{IRBinOpKind, IRExpr, IRInst, NativeFlag};
use super::lifter::{
    address_constant, address_of, address_register, address_sum, compared, is_double_word,
    lifted_one, lifted_plain, operand_value, operation, product_overflows, progress_after, resolved,
    stack_displacement,
};
use crate::x86::{
    register_width, Decoded, Operand, Register, CODE_JAE_REL8_64, CODE_JBE_REL8_64, CODE_JB_REL8_64,
    CODE_JE_REL32_64, CODE_JE_REL8_64, CODE_JGE_REL32_64, CODE_JGE_REL8_64, CODE_JG_REL32_64,
    CODE_JG_REL8_64, CODE_JLE_REL32_64, CODE_JLE_REL8_64, CODE_JL_REL32_64, CODE_JL_REL8_64,
    CODE_JNE_REL32_64, CODE_JNE_REL8_64, CL, FS, GS, MNEMONIC_ADD, MNEMONIC_CMOVNE, MNEMONIC_CMP,
    MNEMONIC_DEC, MNEMONIC_IMUL, MNEMONIC_INC, MNEMONIC_JAE, MNEMONIC_JB, MNEMONIC_JBE, MNEMONIC_JE,
    MNEMONIC_JG, MNEMONIC_JGE, MNEMONIC_JL, MNEMONIC_JLE, MNEMONIC_JMP, MNEMONIC_JNE, MNEMONIC_LEA,
    MNEMONIC_MOV, MNEMONIC_MOVSX, MNEMONIC_MOVSXD, MNEMONIC_MOVZX, MNEMONIC_NOP, MNEMONIC_POP,
    MNEMONIC_PUSH, MNEMONIC_RET, MNEMONIC_SHL, MNEMONIC_SHR, MNEMONIC_SUB, MNEMONIC_TEST,
    MNEMONIC_XOR, NONE, OPERAND_IMMEDIATE16, OPERAND_IMMEDIATE32, OPERAND_IMMEDIATE8,
    OPERAND_IMMEDIATE8TO16, OPERAND_IMMEDIATE8TO32, OPERAND_MEMORY, OPERAND_NEAR_BRANCH64,
    OPERAND_REGISTER, RSP,
};
use vstd::arithmetic::power2::pow2;
use vstd::prelude::*;

verus! {

// ---------------------------------------------------------------------------
// Numbers

/// The number of values that a number of bytes can hold.
pub open spec fn limit(width: usize) -> int {
    if width == 1 {
        0x100
    } else if width == 2 {
        0x1_0000
    } else if width == 4 {
        0x1_0000_0000
    } else {
        0x1_0000_0000_0000_0000
    }
}

/// The signed number that the bits of an unsigned one stand for.
pub open spec fn signed(value: int, width: usize) -> int {
    if 2 * value >= limit(width) {
        value - limit(width)
    } else {
        value
    }
}

/// Whether a number is one of the signed ones of a width.
pub open spec fn fits(value: int, width: usize) -> bool {
    -limit(width) <= 2 * value < limit(width)
}

/// How many of the lowest `count` bits are set.
pub open spec fn ones(value: int, count: nat) -> int
    decreases count,
{
    if count == 0 {
        0
    } else {
        value % 2 + ones(value / 2, (count - 1) as nat)
    }
}

// ---------------------------------------------------------------------------
// The state

/// Where the processor goes on.
pub enum Next {
    Following,
    Address(int),
    Return,
}

/// The state of the processor. Each register is known by its name, memory by its
/// cells. A flag that holds nothing is undefined.
pub struct Machine {
    pub registers: spec_fn(Register) -> int,
    pub flags: spec_fn(NativeFlag) -> Option<bool>,
    pub memory: spec_fn(int, usize) -> int,
    /// The stack pointer on entry.
    pub entry: int,
    pub next: Next,
}

impl Machine {
    pub open spec fn with_register(self, register: Register, value: int) -> Machine {
        Machine {
            registers: |r: Register|
                if r == register {
                    value
                } else {
                    (self.registers)(r)
                },
            ..self
        }
    }

    pub open spec fn with_memory(self, address: int, size: usize, value: int) -> Machine {
        Machine {
            memory: |a: int, s: usize|
                if a == address && s == size {
                    value
                } else {
                    (self.memory)(a, s)
                },
            ..self
        }
    }

    pub open spec fn with_flag(self, flag: NativeFlag, value: Option<bool>) -> Machine {
        Machine {
            flags: |f: NativeFlag|
                if f == flag {
                    value
                } else {
                    (self.flags)(f)
                },
            ..self
        }
    }

    pub open spec fn with_next(self, next: Next) -> Machine {
        Machine { next, ..self }
    }
}

/// Whether a flag is one of those that arithmetic sets.
pub open spec fn is_status(flag: NativeFlag) -> bool {
    flag == NativeFlag::Carry || flag == NativeFlag::Parity || flag == NativeFlag::AuxCarry || flag
        == NativeFlag::Zero || flag == NativeFlag::Sign || flag == NativeFlag::Overflow
}

/// A flag by the result alone.
pub open spec fn flag_of_result(flag: NativeFlag, result: int, width: usize) -> Option<bool> {
    match flag {
        NativeFlag::Zero => Some(result == 0),
        NativeFlag::Sign => Some(signed(result, width) < 0),
        NativeFlag::Parity => Some(ones(result, 8) % 2 == 0),
        _ => None,
    }
}

/// A flag after the addition of two numbers.
pub open spec fn flag_of_sum(flag: NativeFlag, a: int, b: int, width: usize) -> Option<bool> {
    match flag {
        NativeFlag::Carry => Some(a + b >= limit(width)),
        NativeFlag::Overflow => Some(!fits(signed(a, width) + signed(b, width), width)),
        NativeFlag::AuxCarry => Some(a % 16 + b % 16 >= 16),
        _ => flag_of_result(flag, (a + b) % limit(width), width),
    }
}

/// A flag after the subtraction of two numbers.
pub open spec fn flag_of_difference(flag: NativeFlag, a: int, b: int, width: usize) -> Option<
    bool,
> {
    match flag {
        NativeFlag::Carry => Some(a < b),
        NativeFlag::Overflow => Some(!fits(signed(a, width) - signed(b, width), width)),
        NativeFlag::AuxCarry => Some(a % 16 < b % 16),
        _ => flag_of_result(flag, (a - b) % limit(width), width),
    }
}

// ---------------------------------------------------------------------------
// Operations

/// The width of a value in bytes.
pub open spec fn width_of(expr: IRExpr) -> usize
    decreases expr,
{
    match expr {
        IRExpr::BinOp { kind, lhs, .. } => match kind {
            IRBinOpKind::Or | IRBinOpKind::Eq | IRBinOpKind::SignedGt => 1,
            _ => width_of(*lhs),
        },
        IRExpr::Deref { size, .. } => size,
        IRExpr::ExtractBytes { size, .. } => size,
        IRExpr::ZeroExtend { size, .. } => size,
        IRExpr::SignExtend { size, .. } => size,
        IRExpr::Reg(register) => register_width(register.number),
        IRExpr::Flag(_) => 1,
        IRExpr::Stack { size, .. } => size,
        IRExpr::CU8(_) => 1,
        IRExpr::CU32(_) => 4,
        IRExpr::CU64(_) => 8,
    }
}

/// The width at which two values are compared. A constant may be wider than what
/// it is compared with.
pub open spec fn common_width(lhs: IRExpr, rhs: IRExpr) -> usize {
    if width_of(lhs) <= width_of(rhs) {
        width_of(lhs)
    } else {
        width_of(rhs)
    }
}

pub open spec fn bit(truth: bool) -> int {
    if truth {
        1
    } else {
        0
    }
}

/// The value of an operation on two values.
pub open spec fn operation_value(
    kind: IRBinOpKind,
    a: int,
    b: int,
    width: usize,
    common: usize,
) -> int {
    match kind {
        IRBinOpKind::Add => (a + b) % limit(width),
        IRBinOpKind::Sub => (a - b) % limit(width),
        IRBinOpKind::Mul => (a * b) % limit(width),
        IRBinOpKind::Shl => (a * pow2(b as nat)) % limit(width),
        IRBinOpKind::Shr => a / (pow2(b as nat) as int),
        IRBinOpKind::And => (a as u64 & b as u64) as int,
        IRBinOpKind::Or => bit(a != 0 || b != 0),
        IRBinOpKind::Eq => bit(a == b),
        IRBinOpKind::SignedGt => bit(signed(a, common) > signed(b, common)),
    }
}

/// The value of an expression.
pub open spec fn value(m: Machine, expr: IRExpr) -> int
    decreases expr,
{
    match expr {
        IRExpr::BinOp { kind, lhs, rhs } => operation_value(
            kind,
            value(m, *lhs),
            value(m, *rhs),
            width_of(*lhs),
            common_width(*lhs, *rhs),
        ),
        IRExpr::Deref { address, size } => (m.memory)(value(m, *address), size),
        IRExpr::ExtractBytes { value: inner, offset, size } => (value(m, *inner) / (pow2(
            8 * offset as nat,
        ) as int)) % limit(size),
        IRExpr::ZeroExtend { value: inner, .. } => value(m, *inner),
        IRExpr::SignExtend { value: inner, size } => signed(value(m, *inner), width_of(*inner))
            % limit(size),
        IRExpr::Reg(register) => (m.registers)(register),
        IRExpr::Flag(flag) => bit((m.flags)(flag) == Some(true)),
        IRExpr::Stack { offset, size } => (m.memory)((m.entry + offset) % limit(8), size),
        IRExpr::CU8(constant) => constant as int,
        IRExpr::CU32(constant) => constant as int,
        IRExpr::CU64(constant) => constant as int,
    }
}

/// A flag that is set from a value: by how the value came about.
pub open spec fn flag_from(m: Machine, flag: NativeFlag, expr: IRExpr) -> Option<bool> {
    match expr {
        IRExpr::BinOp { kind: IRBinOpKind::Add, lhs, rhs } => flag_of_sum(
            flag,
            value(m, *lhs),
            value(m, *rhs),
            width_of(*lhs),
        ),
        IRExpr::BinOp { kind: IRBinOpKind::Sub, lhs, rhs } => flag_of_difference(
            flag,
            value(m, *lhs),
            value(m, *rhs),
            width_of(*lhs),
        ),
        _ => flag_of_result(flag, value(m, expr), width_of(expr)),
    }
}

/// The state after a value has been stored.
pub open spec fn stored(m: Machine, dest: IRExpr, value: int) -> Machine {
    match dest {
        IRExpr::Reg(register) => m.with_register(register, value),
        IRExpr::Deref { address, size } => m.with_memory(self::value(m, *address), size, value),
        IRExpr::Stack { offset, size } => m.with_memory(
            (m.entry + offset) % limit(8),
            size,
            value,
        ),
        IRExpr::Flag(flag) => m.with_flag(flag, Some(value != 0)),
        _ => m,
    }
}

/// The state after one operation.
pub open spec fn step(m: Machine, instr: IRInst) -> Machine
    decreases instr,
{
    match instr {
        IRInst::Asgn { dest, src } => stored(m, dest, value(m, src)),
        IRInst::If(condition, inner) => if value(m, condition) != 0 {
            step(m, *inner)
        } else {
            m
        },
        IRInst::Jmp(target) => m.with_next(Next::Address(value(m, target))),
        IRInst::Ret(_) => m.with_next(Next::Return),
        IRInst::SetFlagsFrom(flags, expr) => Machine {
            flags: |f: NativeFlag|
                if flags.has(f) {
                    flag_from(m, f, expr)
                } else {
                    (m.flags)(f)
                },
            ..m
        },
        IRInst::ClearFlags(flags) => Machine {
            flags: |f: NativeFlag|
                if flags.has(f) {
                    Some(false)
                } else {
                    (m.flags)(f)
                },
            ..m
        },
        IRInst::InvalidateFlags(flags) => Machine {
            flags: |f: NativeFlag|
                if flags.has(f) {
                    None
                } else {
                    (m.flags)(f)
                },
            ..m
        },
    }
}

/// The state after a list of operations.
pub open spec fn run(m: Machine, list: Seq<IRInst>) -> Machine
    decreases list.len(),
{
    if list.len() == 0 {
        m
    } else {
        step(run(m, list.drop_last()), list.last())
    }
}

// ---------------------------------------------------------------------------
// Instructions

/// Whether the memory operand is one that the processor can address: base and
/// index are general purpose registers of one width, the scale is a power of two.
pub open spec fn addressable(x: Decoded) -> bool {
    &&& x.base.number == NONE || is_address_register(x.base)
    &&& x.index.number == NONE || is_address_register(x.index)
    &&& x.base.number != NONE && x.index.number != NONE ==> register_width(x.base.number)
        == register_width(x.index.number)
    &&& x.scale == 1 || x.scale == 2 || x.scale == 4 || x.scale == 8
}

pub open spec fn is_address_register(register: Register) -> bool {
    if is_double_word(register) {
        register_width(register.number) == 4
    } else {
        53 <= register.number <= 68 && register_width(register.number) == 8
    }
}

/// What a register adds to an address.
pub open spec fn address_part(m: Machine, register: Register) -> int {
    if register.number == NONE {
        0
    } else {
        (m.registers)(register)
    }
}

/// The address of the memory operand: base plus scaled index plus displacement,
/// at the width of the registers.
pub open spec fn effective(m: Machine, x: Decoded) -> int {
    if x.ip_relative {
        x.ip_relative_address as int
    } else {
        (address_part(m, x.base) + address_part(m, x.index) * x.scale + x.displacement) % limit(
            if is_double_word(x.base) || is_double_word(x.index) {
                4
            } else {
                8
            },
        )
    }
}

/// The width of an operand in bytes.
pub open spec fn operand_width(x: Decoded, operand: Operand) -> usize {
    if operand.kind == OPERAND_MEMORY {
        x.memory_width
    } else if operand.kind == OPERAND_REGISTER {
        register_width(operand.register.number)
    } else if operand.kind == OPERAND_IMMEDIATE8 {
        1
    } else if operand.kind == OPERAND_IMMEDIATE16 || operand.kind == OPERAND_IMMEDIATE8TO16 {
        2
    } else if operand.kind == OPERAND_IMMEDIATE32 || operand.kind == OPERAND_IMMEDIATE8TO32 {
        4
    } else {
        8
    }
}

/// What the processor reads from an operand.
pub open spec fn read(m: Machine, x: Decoded, operand: Operand) -> int {
    if operand.kind == OPERAND_MEMORY {
        (m.memory)(effective(m, x), x.memory_width)
    } else if operand.kind == OPERAND_REGISTER {
        (m.registers)(operand.register)
    } else if operand.kind == OPERAND_NEAR_BRANCH64 {
        x.target as int
    } else {
        match operand.immediate {
            Some(immediate) => immediate as int % limit(operand_width(x, operand)),
            None => 0,
        }
    }
}

/// The state after the processor has written to an operand.
pub open spec fn written(m: Machine, x: Decoded, operand: Operand, value: int) -> Machine {
    if operand.kind == OPERAND_MEMORY {
        m.with_memory(effective(m, x), x.memory_width, value)
    } else {
        m.with_register(operand.register, value)
    }
}

/// Whether the processor can write to an operand.
pub open spec fn is_place(operand: Operand) -> bool {
    operand.kind == OPERAND_MEMORY || operand.kind == OPERAND_REGISTER
}

/// Whether a number can be held in a number of bytes.
pub open spec fn held(value: int, width: usize) -> bool {
    0 <= value < limit(width)
}

/// The state with the status flags as given.
pub open spec fn flagged(m: Machine, flag: spec_fn(NativeFlag) -> Option<bool>) -> Machine {
    Machine {
        flags: |f: NativeFlag|
            if is_status(f) {
                flag(f)
            } else {
                (m.flags)(f)
            },
        ..m
    }
}

// ---------------------------------------------------------------------------
// Operands

proof fn lemma_casts(value: u64)
    ensures
        value as u32 == value as int % 0x1_0000_0000,
        value as u8 == value as int % 0x100,
        value as u16 as u32 == value as int % 0x1_0000,
{
    assert(value as u32 == value % 0x1_0000_0000 && value as u8 == value % 0x100
        && value as u16 as u32 == value % 0x1_0000) by (bit_vector);
}

proof fn lemma_constant(m: Machine, constant: u64, narrow: bool)
    ensures
        value(m, address_constant(constant, narrow)) == constant as int % limit(
            if narrow {
                4
            } else {
                8
            },
        ),
        width_of(address_constant(constant, narrow)) == if narrow {
            4usize
        } else {
            8usize
        },
{
    lemma_casts(constant);
}

/// Sums at a width do not depend on when they are cut to it.
proof fn lemma_sum(a: int, b: int, c: int, n: int)
    requires
        n > 0,
    ensures
        ((a + b % n) % n + c % n) % n == (a + b + c) % n,
        ((b % n) + c % n) % n == (b + c) % n,
        (a + b % n) % n == (a + b) % n,
        (a % n) % n == a % n,
{
    vstd::arithmetic::div_mod::lemma_add_mod_noop_right(a, b, n);
    vstd::arithmetic::div_mod::lemma_add_mod_noop(a + b, c, n);
    vstd::arithmetic::div_mod::lemma_add_mod_noop(b, c, n);
    vstd::arithmetic::div_mod::lemma_mod_twice(a, n);
}

proof fn lemma_address_sum(m: Machine, x: Decoded, base: Register, index: Register, narrow: bool)
    requires
        base.number == NONE || register_width(base.number) == if narrow {
            4
        } else {
            8usize
        },
        index.number == NONE || register_width(index.number) == if narrow {
            4
        } else {
            8usize
        },
        x.scale == 1 || x.scale == 2 || x.scale == 4 || x.scale == 8,
        index.number != NONE ==> (m.registers)(index) == (m.registers)(index) % limit(
            if narrow {
                4
            } else {
                8
            },
        ),
    ensures
        value(m, address_sum(x, base, index, narrow)) == (address_part(m, base) + address_part(
            m,
            index,
        ) * x.scale + x.displacement) % limit(
            if narrow {
                4
            } else {
                8
            },
        ),
{
    let width: usize = if narrow {
        4
    } else {
        8
    };
    reveal_with_fuel(width_of, 3);
    reveal_with_fuel(value, 3);
    let n = limit(width);
    let b = address_part(m, base);
    let i = address_part(m, index);
    let d = x.displacement as int;
    lemma_constant(m, x.displacement, narrow);
    lemma_constant(m, x.scale as u64, narrow);
    let displaced = address_constant(x.displacement, narrow);
    let scale = address_constant(x.scale as u64, narrow);
    let scaled = if x.scale != 1 {
        operation(IRBinOpKind::Mul, IRExpr::Reg(index), scale)
    } else {
        IRExpr::Reg(index)
    };
    assert(x.scale as int % n == x.scale) by {
        vstd::arithmetic::div_mod::lemma_small_mod(x.scale as nat, n as nat);
    }
    let based = if base.number != NONE {
        operation(IRBinOpKind::Add, IRExpr::Reg(base), displaced)
    } else {
        displaced
    };
    assert(width_of(based) == width);
    lemma_sum(b, d, i * x.scale, n);
    assert(value(m, based) == (b + d) % n);
    if index.number != NONE {
        assert(value(m, scaled) == (i * x.scale) % n) by {
            if x.scale == 1 {
                assert(i * x.scale == i) by (nonlinear_arith)
                    requires
                        x.scale == 1,
                ;
            } else {
                assert(value(m, scale) == x.scale);
                assert(width_of(IRExpr::Reg(index)) == width);
                assert(value(m, scaled) == (value(m, IRExpr::Reg(index)) * value(m, scale)) % n);
            }
        }
        lemma_sum(0, (b + d), i * x.scale, n);
        vstd::arithmetic::div_mod::lemma_add_mod_noop(b + d, i * x.scale, n);
        assert(b + d + i * x.scale == b + i * x.scale + d);
    }
}

/// The address of a memory operand is the one that the processor forms.
pub proof fn law_an_address_is_the_one_the_processor_forms(m: Machine, x: Decoded)
    requires
        addressable(x),
        !x.vector_index,
        x.segment.number != FS,
        x.segment.number != GS,
        x.index.number != NONE ==> held((m.registers)(x.index), register_width(x.index.number)),
    ensures
        address_of(x, false) is Some,
        value(m, address_of(x, false)->0) == effective(m, x),
{
    lemma_constant(m, x.ip_relative_address, false);
    if !x.ip_relative {
        let narrow = is_double_word(x.base) || is_double_word(x.index);
        if x.index.number != NONE {
            vstd::arithmetic::div_mod::lemma_small_mod(
                (m.registers)(x.index) as nat,
                limit(register_width(x.index.number)) as nat,
            );
        }
        lemma_address_sum(m, x, x.base, x.index, narrow);
        let sum = address_sum(x, x.base, x.index, narrow);
        if narrow {
            reveal_with_fuel(value, 3);
            vstd::arithmetic::power2::lemma2_to64();
            assert(pow2(8 * 0usize as nat) == 1);
            assert(value(m, sum) / 1 == value(m, sum)) by {
                vstd::arithmetic::div_mod::lemma_div_basics(value(m, sum));
            }
            lemma_sum(
                address_part(m, x.base) + address_part(m, x.index) * x.scale + x.displacement,
                0,
                0,
                limit(4),
            );
        }
    }
}

/// The value of a lifted operand is what the processor reads from it, and storing
/// to one is what the processor writes to it.
pub proof fn law_an_operand_is_what_the_processor_reads(
    m: Machine,
    x: Decoded,
    operand: Operand,
    stored_value: int,
)
    requires
        addressable(x),
        x.index.number != NONE ==> held((m.registers)(x.index), register_width(x.index.number)),
        operand_value(x, operand) is Some,
    ensures
        value(m, operand_value(x, operand)->0) == read(m, x, operand),
        is_place(operand) ==> stored(m, operand_value(x, operand)->0, stored_value) == written(
            m,
            x,
            operand,
            stored_value,
        ),
        is_place(operand) ==> width_of(operand_value(x, operand)->0) == operand_width(x, operand),
        width_of(operand_value(x, operand)->0) >= operand_width(x, operand),
{
    if operand.kind == OPERAND_MEMORY {
        law_an_address_is_the_one_the_processor_forms(m, x);
    } else if operand.immediate is Some {
        lemma_casts(operand.immediate->0);
    }
}

// ---------------------------------------------------------------------------
// Lists

proof fn lemma_run_one(m: Machine, a: IRInst)
    ensures
        run(m, seq![a]) == step(m, a),
{
    assert(seq![a].drop_last() =~= Seq::<IRInst>::empty());
    assert(run(m, Seq::<IRInst>::empty()) == m);
}

proof fn lemma_run_push(m: Machine, list: Seq<IRInst>, a: IRInst)
    ensures
        run(m, list.push(a)) == step(run(m, list), a),
{
    assert(list.push(a).drop_last() =~= list);
}

proof fn lemma_run_two(m: Machine, a: IRInst, b: IRInst)
    ensures
        run(m, seq![a, b]) == step(step(m, a), b),
{
    lemma_run_one(m, a);
    lemma_run_push(m, seq![a], b);
    assert(seq![a].push(b) =~= seq![a, b]);
}

// ---------------------------------------------------------------------------
// Jumps

/// Whether the processor takes a conditional jump after a comparison of two
/// numbers.
pub open spec fn taken(mnemonic: u32, a: int, b: int, width: usize) -> bool {
    if mnemonic == MNEMONIC_JE {
        a == b
    } else if mnemonic == MNEMONIC_JNE {
        a != b
    } else if mnemonic == MNEMONIC_JB {
        a < b
    } else if mnemonic == MNEMONIC_JAE {
        a >= b
    } else if mnemonic == MNEMONIC_JBE {
        a <= b
    } else if mnemonic == MNEMONIC_JG {
        signed(a, width) > signed(b, width)
    } else if mnemonic == MNEMONIC_JL {
        signed(a, width) < signed(b, width)
    } else if mnemonic == MNEMONIC_JGE {
        signed(a, width) >= signed(b, width)
    } else {
        signed(a, width) <= signed(b, width)
    }
}

/// Whether the instruction is a conditional jump to a near target.
pub open spec fn is_conditional_jump(x: Decoded) -> bool {
    &&& x.first.kind == OPERAND_NEAR_BRANCH64
    &&& {
        ||| x.mnemonic == MNEMONIC_JE && (x.code == CODE_JE_REL8_64 || x.code == CODE_JE_REL32_64)
        ||| x.mnemonic == MNEMONIC_JNE && (x.code == CODE_JNE_REL8_64 || x.code
            == CODE_JNE_REL32_64)
        ||| x.mnemonic == MNEMONIC_JB && x.code == CODE_JB_REL8_64
        ||| x.mnemonic == MNEMONIC_JAE && x.code == CODE_JAE_REL8_64
        ||| x.mnemonic == MNEMONIC_JBE && x.code == CODE_JBE_REL8_64
        ||| x.mnemonic == MNEMONIC_JG && (x.code == CODE_JG_REL8_64 || x.code == CODE_JG_REL32_64)
        ||| x.mnemonic == MNEMONIC_JL && (x.code == CODE_JL_REL8_64 || x.code == CODE_JL_REL32_64)
        ||| x.mnemonic == MNEMONIC_JGE && (x.code == CODE_JGE_REL8_64 || x.code
            == CODE_JGE_REL32_64)
        ||| x.mnemonic == MNEMONIC_JLE && (x.code == CODE_JLE_REL8_64 || x.code
            == CODE_JLE_REL32_64)
    }
}

/// Whether the instruction compares two operands of one width that hold numbers of
/// that width.
pub open spec fn compares(m: Machine, x: Decoded) -> bool {
    let width = operand_width(x, x.first);
    &&& x.mnemonic == MNEMONIC_CMP
    &&& addressable(x)
    &&& x.index.number != NONE ==> held((m.registers)(x.index), register_width(x.index.number))
    &&& is_place(x.first)
    &&& operand_width(x, x.second) == width
    &&& width == 1 || width == 2 || width == 4 || width == 8
    &&& held(read(m, x, x.first), width)
    &&& held(read(m, x, x.second), width)
    &&& operand_value(x, x.first) is Some
    &&& operand_value(x, x.second) is Some
}

/// A compare sets the flags as the difference of its operands does, and changes
/// nothing else.
pub proof fn law_a_compare_sets_the_flags_of_the_difference(m: Machine, x: Decoded)
    requires
        compares(m, x),
    ensures
        lifted_plain(x, None) is Some,
        run(m, lifted_plain(x, None)->0) == flagged(
            m,
            |f: NativeFlag|
                flag_of_difference(
                    f,
                    read(m, x, x.first),
                    read(m, x, x.second),
                    operand_width(x, x.first),
                ),
        ),
{
    let ops = lifted_plain(x, None)->0;
    let want = flagged(
        m,
        |f: NativeFlag|
            flag_of_difference(
                f,
                read(m, x, x.first),
                read(m, x, x.second),
                operand_width(x, x.first),
            ),
    );
    lemma_run_one(m, ops[0]);
    assert(ops =~= seq![ops[0]]);
    law_an_operand_is_what_the_processor_reads(m, x, x.first, 0);
    law_an_operand_is_what_the_processor_reads(m, x, x.second, 0);
    assert(step(m, ops[0]).flags =~= want.flags);
}

/// A conditional jump right after a compare goes to its target exactly where the
/// processor takes it: by the order of the compared numbers, unsigned for equality
/// and for below and above, signed for less and greater.
pub proof fn law_a_jump_after_a_compare_is_taken_as_the_processor_takes_it(
    m: Machine,
    compare: Decoded,
    jump: Decoded,
)
    requires
        compares(m, compare),
        is_conditional_jump(jump),
    ensures
        lifted_plain(compare, None) is Some,
        lifted_plain(jump, compared(compare)) is Some,
        ({
            let before = run(m, lifted_plain(compare, None)->0);
            run(before, lifted_plain(jump, compared(compare))->0) == if taken(
                jump.mnemonic,
                read(m, compare, compare.first),
                read(m, compare, compare.second),
                operand_width(compare, compare.first),
            ) {
                before.with_next(Next::Address(jump.target as int))
            } else {
                before
            }
        }),
{
    law_a_compare_sets_the_flags_of_the_difference(m, compare);
    let before = run(m, lifted_plain(compare, None)->0);
    let ops = lifted_plain(jump, compared(compare))->0;
    let width = operand_width(compare, compare.first);
    let left = operand_value(compare, compare.first)->0;
    let right = operand_value(compare, compare.second)->0;
    let a = read(m, compare, compare.first);
    let b = read(m, compare, compare.second);
    assert(ops =~= seq![ops[0]]);
    lemma_run_one(before, ops[0]);
    law_an_operand_is_what_the_processor_reads(m, compare, compare.first, 0);
    law_an_operand_is_what_the_processor_reads(m, compare, compare.second, 0);
    law_an_operand_is_what_the_processor_reads(before, compare, compare.first, 0);
    law_an_operand_is_what_the_processor_reads(before, compare, compare.second, 0);
    assert(value(before, left) == a);
    assert(value(before, right) == b);
    assert(common_width(left, right) == width);
    assert(common_width(right, left) == width);
    assert(((a - b) % limit(width) == 0) == (a == b)) by {
        if a > b {
            vstd::arithmetic::div_mod::lemma_small_mod((a - b) as nat, limit(width) as nat);
        } else if a < b {
            vstd::arithmetic::div_mod::lemma_mod_add_multiples_vanish(a - b, limit(width));
            vstd::arithmetic::div_mod::lemma_small_mod(
                (a - b + limit(width)) as nat,
                limit(width) as nat,
            );
        } else {
            vstd::arithmetic::div_mod::lemma_small_mod(0, limit(width) as nat);
        }
    }
    let condition = ops[0]->If_0;
    reveal_with_fuel(value, 3);
    assert((before.flags)(NativeFlag::Zero) == Some(a == b));
    assert((before.flags)(NativeFlag::Carry) == Some(a < b));
    reveal_with_fuel(step, 2);
    assert((value(before, condition) != 0) == taken(jump.mnemonic, a, b, width));
}

// ---------------------------------------------------------------------------
// Arithmetic and moves

/// Whether the operands of an instruction can be read, and the first one written.
pub open spec fn is_ready(m: Machine, x: Decoded) -> bool {
    &&& addressable(x)
    &&& x.index.number != NONE ==> held((m.registers)(x.index), register_width(x.index.number))
    &&& is_place(x.first)
    &&& operand_value(x, x.first) is Some
}

/// The state after the flags have been set and a result has been written.
pub open spec fn computed(
    m: Machine,
    x: Decoded,
    flag: spec_fn(NativeFlag) -> Option<bool>,
    result: int,
) -> Machine {
    written(flagged(m, flag), x, x.first, result)
}

/// Addition and subtraction write the sum and the difference of their operands at
/// the operands' width, and set the flags by them. Steps by one leave the carry.
pub proof fn law_addition_and_subtraction_are_what_the_processor_does(m: Machine, x: Decoded)
    requires
        is_ready(m, x),
        x.mnemonic == MNEMONIC_ADD || x.mnemonic == MNEMONIC_SUB ==> operand_value(
            x,
            x.second,
        ) is Some,
    ensures
        ({
            let width = operand_width(x, x.first);
            let a = read(m, x, x.first);
            let b = read(m, x, x.second);
            let after = run(m, lifted_plain(x, None)->0);
            &&& x.mnemonic == MNEMONIC_ADD ==> lifted_plain(x, None) is Some && after == computed(
                m,
                x,
                |f: NativeFlag| flag_of_sum(f, a, b, width),
                (a + b) % limit(width),
            )
            &&& x.mnemonic == MNEMONIC_SUB ==> lifted_plain(x, None) is Some && after == computed(
                m,
                x,
                |f: NativeFlag| flag_of_difference(f, a, b, width),
                (a - b) % limit(width),
            )
            &&& x.mnemonic == MNEMONIC_INC ==> lifted_plain(x, None) is Some && after == computed(
                m,
                x,
                |f: NativeFlag|
                    if f == NativeFlag::Carry {
                        (m.flags)(f)
                    } else {
                        flag_of_sum(f, a, 1, width)
                    },
                (a + 1) % limit(width),
            )
            &&& x.mnemonic == MNEMONIC_DEC ==> lifted_plain(x, None) is Some && after == computed(
                m,
                x,
                |f: NativeFlag|
                    if f == NativeFlag::Carry {
                        (m.flags)(f)
                    } else {
                        flag_of_difference(f, a, 1, width)
                    },
                (a - 1) % limit(width),
            )
        }),
{
    if x.mnemonic == MNEMONIC_ADD || x.mnemonic == MNEMONIC_SUB || x.mnemonic == MNEMONIC_INC
        || x.mnemonic == MNEMONIC_DEC {
        let stepped = x.mnemonic == MNEMONIC_INC || x.mnemonic == MNEMONIC_DEC;
        let added = x.mnemonic == MNEMONIC_ADD || x.mnemonic == MNEMONIC_INC;
        let width = operand_width(x, x.first);
        let a = read(m, x, x.first);
        let b = if stepped {
            1
        } else {
            read(m, x, x.second)
        };
        let ops = lifted_plain(x, None)->0;
        assert(ops =~= seq![ops[0], ops[1]]);
        lemma_run_two(m, ops[0], ops[1]);
        let middle = step(m, ops[0]);
        let flag = |f: NativeFlag|
            if stepped && f == NativeFlag::Carry {
                (m.flags)(f)
            } else if added {
                flag_of_sum(f, a, b, width)
            } else {
                flag_of_difference(f, a, b, width)
            };
        let result = if added {
            (a + b) % limit(width)
        } else {
            (a - b) % limit(width)
        };
        law_an_operand_is_what_the_processor_reads(m, x, x.first, 0);
        law_an_operand_is_what_the_processor_reads(middle, x, x.first, result);
        if !stepped {
            law_an_operand_is_what_the_processor_reads(m, x, x.second, 0);
            law_an_operand_is_what_the_processor_reads(middle, x, x.second, 0);
        }
        assert(middle.flags =~= flagged(m, flag).flags);
        assert(middle == flagged(m, flag));
        reveal_with_fuel(value, 2);
        assert(value(middle, ops[1]->src) == result);
        assert(run(m, ops) == computed(m, x, flag, result));
        if x.mnemonic == MNEMONIC_ADD {
            assert(flagged(m, flag).flags =~= flagged(
                m,
                |f: NativeFlag| flag_of_sum(f, a, b, width),
            ).flags);
        } else if x.mnemonic == MNEMONIC_SUB {
            assert(flagged(m, flag).flags =~= flagged(
                m,
                |f: NativeFlag| flag_of_difference(f, a, b, width),
            ).flags);
        } else if x.mnemonic == MNEMONIC_INC {
            assert(flagged(m, flag).flags =~= flagged(
                m,
                |f: NativeFlag|
                    if f == NativeFlag::Carry {
                        (m.flags)(f)
                    } else {
                        flag_of_sum(f, a, 1, width)
                    },
            ).flags);
        } else {
            assert(flagged(m, flag).flags =~= flagged(
                m,
                |f: NativeFlag|
                    if f == NativeFlag::Carry {
                        (m.flags)(f)
                    } else {
                        flag_of_difference(f, a, 1, width)
                    },
            ).flags);
        }
    }
}

/// Moves write what they read: as it is, extended with zeros, or extended with the
/// sign. A conditional move writes where the zero flag is not set.
pub proof fn law_moves_are_what_the_processor_does(m: Machine, x: Decoded)
    requires
        is_ready(m, x),
        operand_value(x, x.second) is Some,
        lifted_plain(x, None) is Some,
        x.mnemonic == MNEMONIC_MOVSX || x.mnemonic == MNEMONIC_MOVZX ==> x.first.kind
            == OPERAND_REGISTER,
    ensures
        ({
            let b = read(m, x, x.second);
            let from = operand_width(x, x.second);
            let to = operand_width(x, x.first);
            let after = run(m, lifted_plain(x, None)->0);
            &&& x.mnemonic == MNEMONIC_MOV ==> after == written(m, x, x.first, b)
            &&& x.mnemonic == MNEMONIC_MOVZX ==> after == written(m, x, x.first, b)
            &&& x.mnemonic == MNEMONIC_MOVSX && is_place(x.second) ==> after == written(
                m,
                x,
                x.first,
                signed(b, from) % limit(to),
            )
            &&& x.mnemonic == MNEMONIC_MOVSXD && is_place(x.second) ==> after == written(
                m,
                x,
                x.first,
                signed(b, from) % limit(8),
            )
            &&& x.mnemonic == MNEMONIC_CMOVNE ==> after == if (m.flags)(NativeFlag::Zero) == Some(
                true,
            ) {
                m
            } else {
                written(m, x, x.first, b)
            }
        }),
{
    if x.mnemonic == MNEMONIC_MOV || x.mnemonic == MNEMONIC_MOVZX || x.mnemonic == MNEMONIC_MOVSX
        || x.mnemonic == MNEMONIC_MOVSXD || x.mnemonic == MNEMONIC_CMOVNE {
        let ops = lifted_plain(x, None)->0;
        assert(ops =~= seq![ops[0]]);
        lemma_run_one(m, ops[0]);
        reveal_with_fuel(value, 2);
        reveal_with_fuel(step, 2);
        let b = read(m, x, x.second);
        let from = operand_width(x, x.second);
        law_an_operand_is_what_the_processor_reads(m, x, x.second, 0);
        law_an_operand_is_what_the_processor_reads(m, x, x.first, b);
        law_an_operand_is_what_the_processor_reads(
            m,
            x,
            x.first,
            signed(b, from) % limit(operand_width(x, x.first)),
        );
        law_an_operand_is_what_the_processor_reads(m, x, x.first, signed(b, from) % limit(8));
    }
}

/// Loading a 64-bit effective address writes the address of the memory operand.
pub proof fn law_an_effective_address_is_what_the_processor_forms(m: Machine, x: Decoded)
    requires
        is_ready(m, x),
        x.mnemonic == MNEMONIC_LEA,
        x.first.kind == OPERAND_REGISTER,
        register_width(x.first.register.number) == 8,
        lifted_plain(x, None) is Some,
    ensures
        run(m, lifted_plain(x, None)->0) == written(m, x, x.first, effective(m, x)),
{
    let ops = lifted_plain(x, None)->0;
    assert(ops =~= seq![ops[0]]);
    lemma_run_one(m, ops[0]);
    law_an_address_is_the_one_the_processor_forms(m, x);
}

/// Whether the 32-bit form of a register holds the low half of it.
pub open spec fn narrows(m: Machine, register: Register) -> bool {
    let half = address_register(register, true);
    if register.number == NONE {
        half.number == NONE
    } else {
        &&& half.number != NONE
        &&& register_width(half.number) == 4
        &&& (m.registers)(half) == (m.registers)(register) % limit(4)
    }
}

/// Loading a 32-bit effective address writes the low half of the address.
pub proof fn law_a_narrow_effective_address_is_the_low_half(m: Machine, x: Decoded)
    requires
        is_ready(m, x),
        x.mnemonic == MNEMONIC_LEA,
        x.first.kind == OPERAND_REGISTER,
        register_width(x.first.register.number) == 4,
        lifted_plain(x, None) is Some,
        narrows(m, x.base),
        narrows(m, x.index),
    ensures
        run(m, lifted_plain(x, None)->0) == written(m, x, x.first, effective(m, x) % limit(4)),
{
    let ops = lifted_plain(x, None)->0;
    assert(ops =~= seq![ops[0]]);
    lemma_run_one(m, ops[0]);
    lemma_constant(m, x.ip_relative_address, true);
    if !x.ip_relative {
        let n = limit(4);
        let base = address_register(x.base, true);
        let index = address_register(x.index, true);
        let b = address_part(m, x.base);
        let i = address_part(m, x.index);
        let d = x.displacement as int;
        if x.index.number != NONE {
            lemma_sum((m.registers)(x.index), 0, 0, n);
        }
        lemma_address_sum(m, x, base, index, true);
        lemma_low_half(b, i, d, x.scale);
        assert(address_part(m, base) == b % n || b == 0);
        assert(address_part(m, index) == i % n || i == 0);
        assert(0int % n == 0);
        assert(effective(m, x) % n == (b + i * x.scale + d) % n) by {
            let exact = b + i * x.scale + d;
            assert((exact % 0x1_0000_0000_0000_0000) % 0x1_0000_0000 == exact % 0x1_0000_0000);
            lemma_sum(exact, 0, 0, n);
        }
    }
}

/// The low half of a scaled sum depends on the low halves of its parts.
proof fn lemma_low_half(b: int, i: int, d: int, scale: u32)
    requires
        scale == 1 || scale == 2 || scale == 4 || scale == 8,
    ensures
        (b % limit(4) + (i % limit(4)) * scale + d) % limit(4) == (b + i * scale + d) % limit(4),
{
    let n = limit(4);
    vstd::arithmetic::div_mod::lemma_mul_mod_noop_left(i, scale as int, n);
    let x = (i % n) * scale;
    let y = i * scale;
    assert(x % n == y % n);
    vstd::arithmetic::div_mod::lemma_add_mod_noop(b % n + d, x, n);
    vstd::arithmetic::div_mod::lemma_add_mod_noop(b + d, y, n);
    vstd::arithmetic::div_mod::lemma_add_mod_noop_right(d, b, n);
    assert(b % n + x + d == b % n + d + x);
    assert(b + y + d == b + d + y);
    assert((b % n + d) % n == (b + d) % n);
}

/// The overflow of a product: whether it is no signed number of four bytes.
pub open spec fn overflows(a: int, b: int) -> bool {
    !fits(signed(a, 4) * signed(b, 4), 4)
}

proof fn lemma_product_overflows(m: Machine, left: IRExpr, right: IRExpr)
    requires
        width_of(left) == 4,
        width_of(right) == 4,
        held(value(m, left), 4),
        held(value(m, right), 4),
    ensures
        value(m, product_overflows(left, right)) == bit(
            overflows(value(m, left), value(m, right)),
        ),
{
    let x = signed(value(m, left), 4);
    let y = signed(value(m, right), 4);
    let wide = limit(8);
    let n = limit(4);
    let exact = x * y;
    let first = IRExpr::SignExtend { value: Box::new(left), size: 8 };
    let second = IRExpr::SignExtend { value: Box::new(right), size: 8 };
    let product = operation(IRBinOpKind::Mul, first, second);
    let low = IRExpr::ExtractBytes { value: Box::new(product), offset: 0, size: 4 };
    let extended = IRExpr::SignExtend { value: Box::new(low), size: 8 };
    let same = operation(IRBinOpKind::Eq, product, extended);
    assert(value(m, first) == x % wide);
    assert(value(m, second) == y % wide);
    assert(width_of(first) == 8);
    assert(value(m, product) == ((x % wide) * (y % wide)) % wide);
    vstd::arithmetic::div_mod::lemma_mul_mod_noop(x, y, wide);
    assert(value(m, product) == exact % wide);
    vstd::arithmetic::power2::lemma2_to64();
    assert(pow2(8 * 0usize as nat) == 1);
    let half = (exact % wide) % n;
    assert(value(m, low) == half) by {
        vstd::arithmetic::div_mod::lemma_div_basics(exact % wide);
    }
    assert(width_of(low) == 4);
    assert(value(m, extended) == signed(half, 4) % wide);
    assert(-0x4000_0000_0000_0000 <= exact <= 0x4000_0000_0000_0000) by (nonlinear_arith)
        requires
            exact == x * y,
            -0x8000_0000 <= x < 0x8000_0000,
            -0x8000_0000 <= y < 0x8000_0000,
    ;
    assert((exact % wide == signed(half, 4) % wide) == fits(exact, 4));
    assert(value(m, same) == bit(fits(exact, 4)));
    let negated = operation(IRBinOpKind::Eq, same, IRExpr::CU8(0));
    assert(product_overflows(left, right) == negated);
    assert(value(m, IRExpr::CU8(0)) == 0);
    assert(value(m, negated) == bit(value(m, same) == 0));
}

/// A product of two 32-bit numbers is written at that width, and carry and
/// overflow tell whether it was cut. The other status flags are undefined.
pub proof fn law_products_are_what_the_processor_does(m: Machine, x: Decoded)
    requires
        is_ready(m, x),
        x.mnemonic == MNEMONIC_IMUL,
        lifted_plain(x, None) is Some,
        operand_width(x, x.first) == 4,
        width_of(operand_value(x, x.second)->0) == 4,
        width_of(operand_value(x, x.third)->0) == 4,
        held(read(m, x, x.second), 4),
        held(read(m, x, x.third), 4),
    ensures
        ({
            let a = read(m, x, x.second);
            let b = read(m, x, x.third);
            run(m, lifted_plain(x, None)->0) == computed(
                m,
                x,
                |f: NativeFlag|
                    if f == NativeFlag::Carry || f == NativeFlag::Overflow {
                        Some(overflows(a, b))
                    } else {
                        None
                    },
                (a * b) % limit(4),
            )
        }),
{
    let a = read(m, x, x.second);
    let b = read(m, x, x.third);
    let ops = lifted_plain(x, None)->0;
    let left = operand_value(x, x.second)->0;
    let right = operand_value(x, x.third)->0;
    let flag = |f: NativeFlag|
        if f == NativeFlag::Carry || f == NativeFlag::Overflow {
            Some(overflows(a, b))
        } else {
            None
        };
    let one = step(m, ops[0]);
    let two = step(one, ops[1]);
    let three = step(two, ops[2]);
    lemma_run_two(m, ops[0], ops[1]);
    lemma_run_push(m, seq![ops[0], ops[1]], ops[2]);
    lemma_run_push(m, seq![ops[0], ops[1]].push(ops[2]), ops[3]);
    assert(ops =~= seq![ops[0], ops[1]].push(ops[2]).push(ops[3]));
    law_an_operand_is_what_the_processor_reads(m, x, x.second, 0);
    law_an_operand_is_what_the_processor_reads(m, x, x.third, 0);
    lemma_product_overflows(m, left, right);
    law_an_operand_is_what_the_processor_reads(one, x, x.second, 0);
    law_an_operand_is_what_the_processor_reads(one, x, x.third, 0);
    lemma_product_overflows(one, left, right);
    law_an_operand_is_what_the_processor_reads(three, x, x.second, 0);
    law_an_operand_is_what_the_processor_reads(three, x, x.third, 0);
    law_an_operand_is_what_the_processor_reads(three, x, x.first, (a * b) % limit(4));
    assert(three.flags =~= flagged(m, flag).flags);
    assert(three == flagged(m, flag));
    reveal_with_fuel(value, 2);
    assert(value(three, ops[3]->src) == (a * b) % limit(4));
}

/// A test sets the flags by the bits that its operands have in common, and clears
/// carry and overflow.
pub proof fn law_a_test_sets_the_flags_of_the_common_bits(m: Machine, x: Decoded)
    requires
        is_ready(m, x),
        x.mnemonic == MNEMONIC_TEST,
        operand_value(x, x.second) is Some,
        lifted_plain(x, None) is Some,
    ensures
        run(m, lifted_plain(x, None)->0) == flagged(
            m,
            |f: NativeFlag|
                logic_flag(
                    f,
                    (read(m, x, x.first) as u64 & read(m, x, x.second) as u64) as int,
                    operand_width(x, x.first),
                ),
        ),
{
    let result = operation(
        IRBinOpKind::And,
        operand_value(x, x.first)->0,
        operand_value(x, x.second)->0,
    );
    let ops = lifted_plain(x, None)->0;
    law_an_operand_is_what_the_processor_reads(m, x, x.first, 0);
    law_an_operand_is_what_the_processor_reads(m, x, x.second, 0);
    let cleared = step(m, ops[0]);
    let undefined = step(cleared, ops[1]);
    law_an_operand_is_what_the_processor_reads(undefined, x, x.first, 0);
    law_an_operand_is_what_the_processor_reads(undefined, x, x.second, 0);
    lemma_run_two(m, ops[0], ops[1]);
    lemma_run_push(m, seq![ops[0], ops[1]], ops[2]);
    assert(ops =~= seq![ops[0], ops[1]].push(ops[2]));
    reveal_with_fuel(value, 2);
    let common = (read(m, x, x.first) as u64 & read(m, x, x.second) as u64) as int;
    assert(value(undefined, result) == common);
    assert(width_of(result) == operand_width(x, x.first)) by {
        reveal_with_fuel(width_of, 2);
    }
    assert(run(m, ops).flags =~= flagged(
        m,
        |f: NativeFlag| logic_flag(f, common, operand_width(x, x.first)),
    ).flags);
}

/// A flag after a logical operation.
pub open spec fn logic_flag(flag: NativeFlag, result: int, width: usize) -> Option<bool> {
    match flag {
        NativeFlag::Carry | NativeFlag::Overflow => Some(false),
        NativeFlag::AuxCarry => None,
        _ => flag_of_result(flag, result, width),
    }
}

/// A register combined with itself by exclusive or holds zero, and the flags are
/// those of zero.
pub proof fn law_a_register_combined_with_itself_is_zero(m: Machine, x: Decoded)
    requires
        x.mnemonic == MNEMONIC_XOR,
        lifted_plain(x, None) is Some,
    ensures
        x.first.register == x.second.register,
        run(m, lifted_plain(x, None)->0) == flagged(
            m,
            |f: NativeFlag| logic_flag(f, 0, 4),
        ).with_register(x.first.register, 0),
{
    let ops = lifted_plain(x, None)->0;
    lemma_run_two(m, ops[0], ops[1]);
    lemma_run_push(m, seq![ops[0], ops[1]], ops[2]);
    lemma_run_push(m, seq![ops[0], ops[1]].push(ops[2]), ops[3]);
    assert(ops =~= seq![ops[0], ops[1]].push(ops[2]).push(ops[3]));
    let middle = run(m, seq![ops[0], ops[1]].push(ops[2]));
    assert(middle.flags =~= flagged(m, |f: NativeFlag| logic_flag(f, 0, 4)).flags);
}

/// How far the processor shifts: by the second operand, of which a register's
/// lowest bits count.
pub open spec fn shift_of(m: Machine, x: Decoded) -> int {
    let count = read(m, x, x.second);
    if x.second.kind == OPERAND_REGISTER && x.second.register.number == CL {
        count % (if operand_width(x, x.first) == 8 {
            64
        } else {
            32
        })
    } else {
        count
    }
}

/// A shift writes its first operand times, or divided by, the power of two that
/// the second one counts.
pub proof fn law_shifts_are_what_the_processor_does(m: Machine, x: Decoded)
    requires
        is_ready(m, x),
        x.mnemonic == MNEMONIC_SHL || x.mnemonic == MNEMONIC_SHR,
        operand_value(x, x.second) is Some,
        held(read(m, x, x.second), 8),
    ensures
        lifted_plain(x, None) is Some,
        ({
            let width = operand_width(x, x.first);
            let power = pow2(shift_of(m, x) as nat);
            let result = if x.mnemonic == MNEMONIC_SHL {
                (read(m, x, x.first) * power) % limit(width)
            } else {
                read(m, x, x.first) / (power as int)
            };
            run(m, lifted_plain(x, None)->0) == computed(
                m,
                x,
                |f: NativeFlag| flag_of_result(f, result, width),
                result,
            )
        }),
{
    let ops = lifted_plain(x, None)->0;
    assert(ops =~= seq![ops[0], ops[1]]);
    lemma_run_two(m, ops[0], ops[1]);
    let middle = step(m, ops[0]);
    let width = operand_width(x, x.first);
    let power = pow2(shift_of(m, x) as nat);
    let result = if x.mnemonic == MNEMONIC_SHL {
        (read(m, x, x.first) * power) % limit(width)
    } else {
        read(m, x, x.first) / (power as int)
    };
    let count = read(m, x, x.second) as u64;
    assert(count & 31 == count % 32 && count & 63 == count % 64) by (bit_vector);
    law_an_operand_is_what_the_processor_reads(m, x, x.first, 0);
    law_an_operand_is_what_the_processor_reads(m, x, x.second, 0);
    law_an_operand_is_what_the_processor_reads(middle, x, x.first, result);
    law_an_operand_is_what_the_processor_reads(middle, x, x.second, 0);
    reveal_with_fuel(value, 3);
    reveal_with_fuel(width_of, 3);
    assert(value(m, ops[1]->src) == result);
    assert(value(middle, ops[1]->src) == result);
    assert(middle.flags =~= flagged(m, |f: NativeFlag| flag_of_result(f, result, width)).flags);
}

/// A jump goes to its target, a return leaves, and a no-operation does nothing.
pub proof fn law_transfers_are_what_the_processor_does(m: Machine, x: Decoded)
    requires
        lifted_plain(x, None) is Some,
        x.mnemonic == MNEMONIC_JMP ==> x.first.kind == OPERAND_NEAR_BRANCH64,
    ensures
        ({
            let after = run(m, lifted_plain(x, None)->0);
            &&& x.mnemonic == MNEMONIC_JMP ==> after == m.with_next(
                Next::Address(x.target as int),
            )
            &&& x.mnemonic == MNEMONIC_RET ==> after == m.with_next(Next::Return)
            &&& x.mnemonic == MNEMONIC_NOP ==> after == m
        }),
{
    let ops = lifted_plain(x, None)->0;
    if x.mnemonic == MNEMONIC_JMP || x.mnemonic == MNEMONIC_RET {
        assert(ops =~= seq![ops[0]]);
        lemma_run_one(m, ops[0]);
    }
}

/// Pushing stores below the stack pointer, which lies `depth` bytes below its
/// entry value, and popping loads from it.
pub proof fn law_the_stack_is_what_the_processor_keeps(
    m: Machine,
    x: Decoded,
    compare: Option<(IRExpr, IRExpr)>,
    depth: i64,
)
    requires
        x.mnemonic == MNEMONIC_PUSH || x.mnemonic == MNEMONIC_POP,
        lifted_one(x, compare, depth) is Some,
        i64::MIN < depth,
    ensures
        ({
            let register = x.first.register;
            let (ops, after) = lifted_one(x, compare, depth)->0;
            &&& x.mnemonic == MNEMONIC_PUSH ==> after == depth + 8 && run(m, ops)
                == m.with_memory(
                (m.entry - after) % limit(8),
                8,
                (m.registers)(register),
            )
            &&& x.mnemonic == MNEMONIC_POP ==> after == depth - 8 && run(m, ops)
                == m.with_register(register, (m.memory)((m.entry - depth) % limit(8), 8))
        }),
{
    let (ops, after) = lifted_one(x, compare, depth)->0;
    assert(ops =~= seq![ops[0]]);
    lemma_run_one(m, ops[0]);
}

/// A signed jump is lifted only right after a compare, whose operands it tests.
pub proof fn law_a_signed_jump_needs_the_compare_before_it(decoded: Seq<Decoded>)
    requires
        decoded.len() > 0,
        progress_after(decoded) is Some,
        decoded.last().mnemonic == MNEMONIC_JG || decoded.last().mnemonic == MNEMONIC_JL
            || decoded.last().mnemonic == MNEMONIC_JGE || decoded.last().mnemonic == MNEMONIC_JLE,
        is_conditional_jump(decoded.last()),
    ensures
        decoded.len() > 1,
        decoded[decoded.len() - 2].mnemonic == MNEMONIC_CMP,
        progress_after(decoded.drop_last())->0.compare == compared(decoded[decoded.len() - 2]),
{
    let front = decoded.drop_last();
    assert(progress_after(front) is Some);
    if front.len() > 0 {
        assert(front.last() == decoded[decoded.len() - 2]);
    }
}

// ---------------------------------------------------------------------------
// The stack

/// Whether an expression adds no 32-bit displacement to the stack pointer.
pub open spec fn adds_wide(expr: IRExpr) -> bool
    decreases expr,
{
    match expr {
        IRExpr::BinOp { lhs, rhs, .. } => {
            &&& adds_wide(*lhs)
            &&& adds_wide(*rhs)
            &&& !(*lhs == IRExpr::Reg(Register { number: RSP }) && *rhs is CU32)
        },
        IRExpr::Deref { address, .. } => adds_wide(*address),
        IRExpr::ExtractBytes { value, .. } => adds_wide(*value),
        IRExpr::ZeroExtend { value, .. } => adds_wide(*value),
        IRExpr::SignExtend { value, .. } => adds_wide(*value),
        _ => true,
    }
}

/// An expression whose stack accesses have been resolved stands for what it stood
/// for, where the stack pointer lies as far below its entry value as was assumed.
pub proof fn law_resolving_the_stack_keeps_the_value(m: Machine, expr: IRExpr, depth: i64)
    requires
        resolved(expr, depth) is Some,
        adds_wide(expr),
        register_width(RSP) == 8,
        (m.registers)(Register { number: RSP }) == (m.entry - depth) % limit(8),
    ensures
        value(m, resolved(expr, depth)->0) == value(m, expr),
        width_of(resolved(expr, depth)->0) == width_of(expr),
    decreases expr,
{
    match expr {
        IRExpr::BinOp { lhs, rhs, .. } => {
            law_resolving_the_stack_keeps_the_value(m, *lhs, depth);
            law_resolving_the_stack_keeps_the_value(m, *rhs, depth);
        },
        IRExpr::Deref { address, .. } => {
            match stack_displacement(*address) {
                Some(displacement) => {
                    lemma_stack_address(m, *address, depth, displacement);
                },
                None => law_resolving_the_stack_keeps_the_value(m, *address, depth),
            }
        },
        IRExpr::ExtractBytes { value: inner, .. } => {
            law_resolving_the_stack_keeps_the_value(m, *inner, depth);
        },
        IRExpr::ZeroExtend { value: inner, .. } => {
            law_resolving_the_stack_keeps_the_value(m, *inner, depth);
        },
        IRExpr::SignExtend { value: inner, .. } => {
            law_resolving_the_stack_keeps_the_value(m, *inner, depth);
        },
        _ => {},
    }
}

proof fn lemma_stack_address(m: Machine, address: IRExpr, depth: i64, displacement: i64)
    requires
        stack_displacement(address) == Some(displacement),
        adds_wide(address),
        register_width(RSP) == 8,
        (m.registers)(Register { number: RSP }) == (m.entry - depth) % limit(8),
    ensures
        value(m, address) == (m.entry + (displacement - depth)) % limit(8),
{
    reveal_with_fuel(value, 2);
    reveal_with_fuel(width_of, 2);
    let n = limit(8);
    match address {
        IRExpr::Reg(register) => {
            assert(register == Register { number: RSP });
        },
        IRExpr::BinOp { lhs, rhs, .. } => {
            assert(*lhs == IRExpr::Reg(Register { number: RSP }));
            if let IRExpr::CU64(constant) = *rhs {
                lemma_signed_cast(constant);
                vstd::arithmetic::div_mod::lemma_add_mod_noop_right(
                    constant as int,
                    m.entry - depth,
                    n,
                );
                if displacement < 0 {
                    vstd::arithmetic::div_mod::lemma_mod_add_multiples_vanish(
                        m.entry - depth + displacement,
                        n,
                    );
                }
            }
        },
        _ => {},
    }
}

proof fn lemma_signed_cast(constant: u64)
    ensures
        constant as i64 == if constant < 0x8000_0000_0000_0000 {
            constant as int
        } else {
            constant - 0x1_0000_0000_0000_0000
        },
{
    assert(constant < 0x8000_0000_0000_0000 ==> constant as i64 == constant) by (bit_vector);
    assert(constant >= 0x8000_0000_0000_0000 ==> constant as i64 == constant
        - 0x1_0000_0000_0000_0000) by (bit_vector);
}

} // verus!
