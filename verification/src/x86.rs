//! Machine instructions and registers, as the `iced_x86` decoder sees them.
//!
//! An instruction is held as plain values. Mnemonics, encodings, operand kinds
//! and registers are the decoder's own numbers for them.
use crate::table::Key;
use iced_x86::{Decoder, DecoderOptions};
use vstd::prelude::*;

verus! {

// ---------------------------------------------------------------------------
// Registers

/// A machine register, by its number in `iced_x86::Register`.
#[derive(Clone, Copy, Debug, PartialEq, Eq, Structural)]
pub struct Register {
    pub number: u8,
}

impl Key for Register {
    fn equal(&self, other: &Self) -> (res: bool) {
        *self == *other
    }
}

pub const NONE: u8 = 0;

pub const CL: u8 = 2;

pub const AH: u8 = 5;

pub const CH: u8 = 6;

pub const DH: u8 = 7;

pub const BH: u8 = 8;

pub const EAX: u8 = 37;

pub const RAX: u8 = 53;

pub const RBX: u8 = 56;

pub const RSP: u8 = 57;

pub const RBP: u8 = 58;

pub const RSI: u8 = 59;

pub const RDI: u8 = 60;

pub const R12: u8 = 65;

pub const R15: u8 = 68;

pub const EIP: u8 = 69;

pub const RIP: u8 = 70;

pub const FS: u8 = 75;

pub const GS: u8 = 76;

/// Whether the number is that of a general purpose register.
pub open spec fn general_purpose(number: u8) -> bool {
    1 <= number <= 68
}

/// The 64-bit register that a general purpose register is part of: the low and
/// high bytes of the first four, the low bytes of the others, and then the
/// words, double words and quad words in the same order.
pub open spec fn quad_register(number: u8) -> int {
    if number <= 4 {
        number + 52
    } else if number <= 8 {
        number + 48
    } else if number <= 20 {
        number + 48
    } else if number <= 36 {
        number + 32
    } else if number <= 52 {
        number + 16
    } else {
        number as int
    }
}

/// The width in bytes of a general purpose register.
pub open spec fn general_width(number: u8) -> int {
    if number <= 20 {
        1
    } else if number <= 36 {
        2
    } else if number <= 52 {
        4
    } else {
        8
    }
}

/// What `iced_x86::Register::full_register` returns for a register.
pub uninterp spec fn full_number(number: u8) -> u8;

/// What `iced_x86::Register::full_register32` returns for a register.
pub uninterp spec fn full32_number(number: u8) -> u8;

/// What `iced_x86::Register::size` returns for a register.
pub uninterp spec fn register_width(number: u8) -> usize;

/// How `iced_x86::Register` shows a register.
pub uninterp spec fn register_text(number: u8) -> Seq<char>;

impl Register {
    /// The widest register that this one is part of.
    pub open spec fn full(self) -> Register {
        Register { number: full_number(self.number) }
    }

    /// The width in bytes.
    pub open spec fn width(self) -> usize {
        register_width(self.number)
    }

    /// Calls `iced_x86::Register::full_register`, whose result is named
    /// `full_number`. Of a general purpose register the contract says which
    /// 64-bit register that is. Every byte is the number of a register.
    #[verifier::external_body]
    pub(crate) fn full_register(self) -> (res: Register)
        ensures
            res.number == full_number(self.number),
            general_purpose(self.number) ==> res.number == quad_register(self.number),
    {
        let register = iced_x86::Register::try_from(self.number as usize).unwrap();
        Register { number: register.full_register() as u8 }
    }

    /// Calls `iced_x86::Register::full_register32`, whose result is named
    /// `full32_number`. Of a general purpose register the contract says which
    /// 32-bit register that is.
    #[verifier::external_body]
    pub(crate) fn full_register32(self) -> (res: Register)
        ensures
            res.number == full32_number(self.number),
            general_purpose(self.number) ==> res.number == quad_register(self.number) - 16,
    {
        let register = iced_x86::Register::try_from(self.number as usize).unwrap();
        Register { number: register.full_register32() as u8 }
    }

    /// Calls `iced_x86::Register::size`, whose result is named `register_width`.
    /// Of a general purpose register the contract says what the width is; no
    /// register is wider than 1024 bytes.
    #[verifier::external_body]
    pub(crate) fn size(self) -> (res: usize)
        ensures
            res == register_width(self.number),
            general_purpose(self.number) ==> res == general_width(self.number),
            res <= 1024,
    {
        iced_x86::Register::try_from(self.number as usize).unwrap().size()
    }

    /// Calls `iced_x86::Register::is_gpr`: whether the register is a general
    /// purpose register of any width.
    #[verifier::external_body]
    pub(crate) fn is_gpr(self) -> (res: bool)
        ensures
            res == general_purpose(self.number),
    {
        iced_x86::Register::try_from(self.number as usize).unwrap().is_gpr()
    }

    /// Calls `iced_x86::Register::is_gpr32`: whether the register is a 32-bit
    /// general purpose register.
    #[verifier::external_body]
    pub(crate) fn is_gpr32(self) -> (res: bool)
        ensures
            res == (37 <= self.number <= 52),
    {
        iced_x86::Register::try_from(self.number as usize).unwrap().is_gpr32()
    }

    /// Calls `iced_x86::Register::is_gpr64`: whether the register is a 64-bit
    /// general purpose register.
    #[verifier::external_body]
    pub(crate) fn is_gpr64(self) -> (res: bool)
        ensures
            res == (53 <= self.number <= 68),
    {
        iced_x86::Register::try_from(self.number as usize).unwrap().is_gpr64()
    }

    /// Calls the `Debug` form of `iced_x86::Register`, whose text is named
    /// `register_text`.
    #[verifier::external_body]
    pub(crate) fn name(self) -> (res: String)
        ensures
            res@ == register_text(self.number),
    {
        format!("{:?}", iced_x86::Register::try_from(self.number as usize).unwrap())
    }
}

// ---------------------------------------------------------------------------
// Numbers of the decoder

pub const MNEMONIC_MOV: u32 = 414;

pub const MNEMONIC_MOVSXD: u32 = 451;

pub const MNEMONIC_MOVZX: u32 = 454;

pub const MNEMONIC_MOVSX: u32 = 450;

pub const MNEMONIC_LEA: u32 = 374;

pub const MNEMONIC_IMUL: u32 = 277;

pub const MNEMONIC_ADD: u32 = 7;

pub const MNEMONIC_INC: u32 = 279;

pub const MNEMONIC_SUB: u32 = 740;

pub const MNEMONIC_DEC: u32 = 137;

pub const MNEMONIC_PUSH: u32 = 640;

pub const MNEMONIC_POP: u32 = 590;

pub const MNEMONIC_CMOVNE: u32 = 86;

pub const MNEMONIC_TEST: u32 = 751;

pub const MNEMONIC_CMP: u32 = 93;

pub const MNEMONIC_JE: u32 = 302;

pub const MNEMONIC_JNE: u32 = 310;

pub const MNEMONIC_JB: u32 = 299;

pub const MNEMONIC_JAE: u32 = 298;

pub const MNEMONIC_JBE: u32 = 300;

pub const MNEMONIC_JG: u32 = 304;

pub const MNEMONIC_JL: u32 = 306;

pub const MNEMONIC_JGE: u32 = 305;

pub const MNEMONIC_JLE: u32 = 307;

pub const MNEMONIC_JMP: u32 = 308;

pub const MNEMONIC_SHL: u32 = 712;

pub const MNEMONIC_SHR: u32 = 715;

pub const MNEMONIC_XOR: u32 = 1518;

pub const MNEMONIC_RET: u32 = 662;

pub const MNEMONIC_NOP: u32 = 465;

pub const CODE_MOVZX_R32_RM8: u32 = 2090;

pub const CODE_MOVZX_R32_RM16: u32 = 2093;

pub const CODE_MOVZX_R64_RM8: u32 = 2091;

pub const CODE_MOVZX_R64_RM16: u32 = 2094;

pub const CODE_MOVSX_R32_RM8: u32 = 2131;

pub const CODE_MOVSX_R32_RM16: u32 = 2134;

pub const CODE_MOVSX_R64_RM8: u32 = 2132;

pub const CODE_MOVSX_R64_RM16: u32 = 2135;

pub const CODE_LEA_R32_M: u32 = 291;

pub const CODE_LEA_R64_M: u32 = 292;

pub const CODE_IMUL_R32_RM32_IMM32: u32 = 145;

pub const CODE_IMUL_R32_RM32_IMM8: u32 = 151;

pub const CODE_TEST_RM8_R8: u32 = 271;

pub const CODE_TEST_RM32_R32: u32 = 273;

pub const CODE_TEST_RM64_R64: u32 = 274;

pub const CODE_JG_REL8_64: u32 = 206;

pub const CODE_JG_REL32_64: u32 = 1901;

pub const CODE_JL_REL8_64: u32 = 197;

pub const CODE_JL_REL32_64: u32 = 1892;

pub const CODE_JGE_REL8_64: u32 = 200;

pub const CODE_JGE_REL32_64: u32 = 1895;

pub const CODE_JLE_REL8_64: u32 = 203;

pub const CODE_JLE_REL32_64: u32 = 1898;

pub const CODE_JE_REL8_64: u32 = 173;

pub const CODE_JE_REL32_64: u32 = 1868;

pub const CODE_JNE_REL8_64: u32 = 176;

pub const CODE_JNE_REL32_64: u32 = 1871;

pub const CODE_JB_REL8_64: u32 = 167;

pub const CODE_JAE_REL8_64: u32 = 170;

pub const CODE_JBE_REL8_64: u32 = 179;

pub const CODE_XOR_R32_RM32: u32 = 100;

pub const CODE_XOR_RM32_R32: u32 = 96;

pub const CODE_RETNQ: u32 = 396;

pub const OPERAND_REGISTER: u32 = 0;

pub const OPERAND_NEAR_BRANCH64: u32 = 3;

pub const OPERAND_IMMEDIATE8: u32 = 6;

pub const OPERAND_IMMEDIATE16: u32 = 8;

pub const OPERAND_IMMEDIATE32: u32 = 9;

pub const OPERAND_IMMEDIATE64: u32 = 10;

pub const OPERAND_IMMEDIATE8TO16: u32 = 11;

pub const OPERAND_IMMEDIATE8TO32: u32 = 12;

pub const OPERAND_IMMEDIATE8TO64: u32 = 13;

pub const OPERAND_IMMEDIATE32TO64: u32 = 14;

pub const OPERAND_MEMORY: u32 = 24;

// ---------------------------------------------------------------------------
// Instructions

/// One operand as it is encoded.
#[derive(Clone, Copy, Debug, PartialEq, Eq, Structural)]
pub struct Operand {
    /// How the operand is given.
    pub kind: u32,
    /// The register, where it is given by one.
    pub register: Register,
    /// The immediate, extended to 64 bits as its encoding says.
    pub immediate: Option<u64>,
}

/// One decoded instruction.
#[derive(Clone, Copy, Debug, PartialEq, Eq, Structural)]
pub struct Decoded {
    /// Address of the instruction.
    pub ip: u64,
    /// Number of bytes that it takes.
    pub length: usize,
    pub mnemonic: u32,
    pub code: u32,
    pub first: Operand,
    pub second: Operand,
    pub third: Operand,
    /// Target of a near branch.
    pub target: u64,
    /// Whether the index of the memory operand is a vector.
    pub vector_index: bool,
    pub segment: Register,
    /// Whether the memory operand is relative to the instruction pointer.
    pub ip_relative: bool,
    pub ip_relative_address: u64,
    pub base: Register,
    pub index: Register,
    pub scale: u32,
    pub displacement: u64,
    /// Width in bytes of the memory operand.
    pub memory_width: usize,
}

/// What `iced_x86::Instruction::len` returns for the first 64-bit instruction of
/// the bytes at the address.
pub uninterp spec fn instruction_length(code: Seq<u8>, ip: u64) -> usize;

/// Decodes the first instruction with `iced_x86::Decoder` and calls
/// `Instruction::len`, whose result is named `instruction_length`.
/// The length is at least one byte and lies within the bytes.
#[verifier::external_body]
fn read_length(code: &[u8], ip: u64) -> (res: usize)
    requires
        code@.len() > 0,
    ensures
        res == instruction_length(code@, ip),
        1 <= res <= code@.len(),
{
    Decoder::with_ip(64, code, ip, DecoderOptions::NONE).decode().len()
}

/// What `iced_x86::Instruction::mnemonic` returns for the first 64-bit instruction of
/// the bytes at the address.
pub uninterp spec fn instruction_mnemonic(code: Seq<u8>, ip: u64) -> u32;

/// Decodes the first instruction with `iced_x86::Decoder` and calls
/// `Instruction::mnemonic`, whose result is named `instruction_mnemonic`.
#[verifier::external_body]
fn read_mnemonic(code: &[u8], ip: u64) -> (res: u32)
    ensures
        res == instruction_mnemonic(code@, ip),
{
    Decoder::with_ip(64, code, ip, DecoderOptions::NONE).decode().mnemonic() as u32
}

/// What `iced_x86::Instruction::code` returns for the first 64-bit instruction of
/// the bytes at the address.
pub uninterp spec fn instruction_code(code: Seq<u8>, ip: u64) -> u32;

/// Decodes the first instruction with `iced_x86::Decoder` and calls
/// `Instruction::code`, whose result is named `instruction_code`.
#[verifier::external_body]
fn read_code(code: &[u8], ip: u64) -> (res: u32)
    ensures
        res == instruction_code(code@, ip),
{
    Decoder::with_ip(64, code, ip, DecoderOptions::NONE).decode().code() as u32
}

/// What `iced_x86::Instruction::op_kind` returns for the first 64-bit instruction of
/// the bytes at the address, for the operand with the index.
pub uninterp spec fn operand_kind(code: Seq<u8>, ip: u64, i: u32) -> u32;

/// Decodes the first instruction with `iced_x86::Decoder` and calls
/// `Instruction::op_kind`, whose result is named `operand_kind`.
#[verifier::external_body]
fn read_operand_kind(code: &[u8], ip: u64, i: u32) -> (res: u32)
    requires
        i < 5,
    ensures
        res == operand_kind(code@, ip, i),
{
    Decoder::with_ip(64, code, ip, DecoderOptions::NONE).decode().op_kind(i) as u32
}

/// What `iced_x86::Instruction::op_register` returns for the first 64-bit instruction of
/// the bytes at the address, for the operand with the index.
pub uninterp spec fn operand_register(code: Seq<u8>, ip: u64, i: u32) -> u8;

/// Decodes the first instruction with `iced_x86::Decoder` and calls
/// `Instruction::op_register`, whose result is named `operand_register`.
#[verifier::external_body]
fn read_operand_register(code: &[u8], ip: u64, i: u32) -> (res: u8)
    requires
        i < 5,
    ensures
        res == operand_register(code@, ip, i),
{
    Decoder::with_ip(64, code, ip, DecoderOptions::NONE).decode().op_register(i) as u8
}

/// What `iced_x86::Instruction::try_immediate` returns for the first 64-bit instruction of
/// the bytes at the address, for the operand with the index.
pub uninterp spec fn operand_immediate(code: Seq<u8>, ip: u64, i: u32) -> Option<u64>;

/// Decodes the first instruction with `iced_x86::Decoder` and calls
/// `Instruction::try_immediate`, whose result is named `operand_immediate`.
/// An operand that is no immediate has none.
#[verifier::external_body]
fn read_operand_immediate(code: &[u8], ip: u64, i: u32) -> (res: Option<u64>)
    ensures
        res == operand_immediate(code@, ip, i),
{
    Decoder::with_ip(64, code, ip, DecoderOptions::NONE).decode().try_immediate(i).ok()
}

/// What `iced_x86::Instruction::near_branch_target` returns for the first 64-bit instruction of
/// the bytes at the address.
pub uninterp spec fn instruction_branch_target(code: Seq<u8>, ip: u64) -> u64;

/// Decodes the first instruction with `iced_x86::Decoder` and calls
/// `Instruction::near_branch_target`, whose result is named `instruction_branch_target`.
#[verifier::external_body]
fn read_branch_target(code: &[u8], ip: u64) -> (res: u64)
    ensures
        res == instruction_branch_target(code@, ip),
{
    Decoder::with_ip(64, code, ip, DecoderOptions::NONE).decode().near_branch_target()
}

/// What `iced_x86::Instruction::vsib` returns for the first 64-bit instruction of
/// the bytes at the address.
pub uninterp spec fn instruction_vsib(code: Seq<u8>, ip: u64) -> Option<bool>;

/// Decodes the first instruction with `iced_x86::Decoder` and calls
/// `Instruction::vsib`, whose result is named `instruction_vsib`.
#[verifier::external_body]
fn read_vsib(code: &[u8], ip: u64) -> (res: Option<bool>)
    ensures
        res == instruction_vsib(code@, ip),
{
    Decoder::with_ip(64, code, ip, DecoderOptions::NONE).decode().vsib()
}

/// What `iced_x86::Instruction::segment_prefix` returns for the first 64-bit instruction of
/// the bytes at the address.
pub uninterp spec fn instruction_segment(code: Seq<u8>, ip: u64) -> u8;

/// Decodes the first instruction with `iced_x86::Decoder` and calls
/// `Instruction::segment_prefix`, whose result is named `instruction_segment`.
#[verifier::external_body]
fn read_segment(code: &[u8], ip: u64) -> (res: u8)
    ensures
        res == instruction_segment(code@, ip),
{
    Decoder::with_ip(64, code, ip, DecoderOptions::NONE).decode().segment_prefix() as u8
}

/// What `iced_x86::Instruction::memory_base` returns for the first 64-bit instruction of
/// the bytes at the address.
pub uninterp spec fn instruction_base(code: Seq<u8>, ip: u64) -> u8;

/// Decodes the first instruction with `iced_x86::Decoder` and calls
/// `Instruction::memory_base`, whose result is named `instruction_base`.
#[verifier::external_body]
fn read_base(code: &[u8], ip: u64) -> (res: u8)
    ensures
        res == instruction_base(code@, ip),
{
    Decoder::with_ip(64, code, ip, DecoderOptions::NONE).decode().memory_base() as u8
}

/// What `iced_x86::Instruction::memory_index` returns for the first 64-bit instruction of
/// the bytes at the address.
pub uninterp spec fn instruction_index(code: Seq<u8>, ip: u64) -> u8;

/// Decodes the first instruction with `iced_x86::Decoder` and calls
/// `Instruction::memory_index`, whose result is named `instruction_index`.
#[verifier::external_body]
fn read_index(code: &[u8], ip: u64) -> (res: u8)
    ensures
        res == instruction_index(code@, ip),
{
    Decoder::with_ip(64, code, ip, DecoderOptions::NONE).decode().memory_index() as u8
}

/// What `iced_x86::Instruction::memory_index_scale` returns for the first 64-bit instruction of
/// the bytes at the address.
pub uninterp spec fn instruction_scale(code: Seq<u8>, ip: u64) -> u32;

/// Decodes the first instruction with `iced_x86::Decoder` and calls
/// `Instruction::memory_index_scale`, whose result is named `instruction_scale`.
#[verifier::external_body]
fn read_scale(code: &[u8], ip: u64) -> (res: u32)
    ensures
        res == instruction_scale(code@, ip),
{
    Decoder::with_ip(64, code, ip, DecoderOptions::NONE).decode().memory_index_scale()
}

/// What `iced_x86::Instruction::memory_displacement64` returns for the first 64-bit instruction of
/// the bytes at the address.
pub uninterp spec fn instruction_displacement(code: Seq<u8>, ip: u64) -> u64;

/// Decodes the first instruction with `iced_x86::Decoder` and calls
/// `Instruction::memory_displacement64`, whose result is named `instruction_displacement`.
#[verifier::external_body]
fn read_displacement(code: &[u8], ip: u64) -> (res: u64)
    ensures
        res == instruction_displacement(code@, ip),
{
    Decoder::with_ip(64, code, ip, DecoderOptions::NONE).decode().memory_displacement64()
}

/// What `iced_x86::Instruction::memory_size` returns for the first 64-bit instruction of
/// the bytes at the address.
pub uninterp spec fn instruction_memory_width(code: Seq<u8>, ip: u64) -> usize;

/// Decodes the first instruction with `iced_x86::Decoder` and calls
/// `Instruction::memory_size` and `MemorySize::size`, whose result is named
/// `instruction_memory_width`.
#[verifier::external_body]
fn read_memory_width(code: &[u8], ip: u64) -> (res: usize)
    ensures
        res == instruction_memory_width(code@, ip),
{
    Decoder::with_ip(64, code, ip, DecoderOptions::NONE).decode().memory_size().size()
}

/// Whether a memory operand with the base register is relative to the instruction
/// pointer.
pub open spec fn is_ip_relative(base: u8) -> bool {
    base == RIP || base == EIP
}

/// The address of a memory operand that is relative to the instruction pointer: its
/// displacement, as wide as that.
pub open spec fn ip_relative_address(base: u8, displacement: u64) -> u64 {
    if base == RIP {
        displacement
    } else {
        displacement % 0x1_0000_0000
    }
}

/// The operand with the index, as the decoder reads it.
pub open spec fn operand_of(code: Seq<u8>, ip: u64, i: u32) -> Operand {
    Operand {
        kind: operand_kind(code, ip, i),
        register: Register { number: operand_register(code, ip, i) },
        immediate: operand_immediate(code, ip, i),
    }
}

/// The instruction that the bytes begin with, as the decoder reads it.
pub open spec fn decoded(code: Seq<u8>, ip: u64) -> Decoded {
    Decoded {
        ip,
        length: instruction_length(code, ip),
        mnemonic: instruction_mnemonic(code, ip),
        code: instruction_code(code, ip),
        first: operand_of(code, ip, 0),
        second: operand_of(code, ip, 1),
        third: operand_of(code, ip, 2),
        target: instruction_branch_target(code, ip),
        vector_index: instruction_vsib(code, ip) is Some,
        segment: Register { number: instruction_segment(code, ip) },
        ip_relative: is_ip_relative(instruction_base(code, ip)),
        ip_relative_address: ip_relative_address(
            instruction_base(code, ip),
            instruction_displacement(code, ip),
        ),
        base: Register { number: instruction_base(code, ip) },
        index: Register { number: instruction_index(code, ip) },
        scale: instruction_scale(code, ip),
        displacement: instruction_displacement(code, ip),
        memory_width: instruction_memory_width(code, ip),
    }
}

fn read_operand(code: &[u8], ip: u64, i: u32) -> (res: Operand)
    requires
        i < 3,
    ensures
        res == operand_of(code@, ip, i),
{
    Operand {
        kind: read_operand_kind(code, ip, i),
        register: Register { number: read_operand_register(code, ip, i) },
        immediate: read_operand_immediate(code, ip, i),
    }
}

/// The instruction that the bytes begin with.
pub fn decode(code: &[u8], ip: u64) -> (res: Decoded)
    requires
        code@.len() > 0,
    ensures
        res == decoded(code@, ip),
        1 <= res.length <= code@.len(),
{
    let base: u8 = read_base(code, ip);
    let displacement: u64 = read_displacement(code, ip);
    Decoded {
        ip,
        length: read_length(code, ip),
        mnemonic: read_mnemonic(code, ip),
        code: read_code(code, ip),
        first: read_operand(code, ip, 0),
        second: read_operand(code, ip, 1),
        third: read_operand(code, ip, 2),
        target: read_branch_target(code, ip),
        vector_index: read_vsib(code, ip).is_some(),
        segment: Register { number: read_segment(code, ip) },
        ip_relative: base == RIP || base == EIP,
        ip_relative_address: if base == RIP {
            displacement
        } else {
            displacement % 0x1_0000_0000
        },
        base: Register { number: base },
        index: Register { number: read_index(code, ip) },
        scale: read_scale(code, ip),
        displacement,
        memory_width: read_memory_width(code, ip),
    }
}

} // verus!
