use whimper::x86;

#[test]
fn numbers_are_those_of_the_decoder() {
    assert_eq!(x86::MNEMONIC_MOV, iced_x86::Mnemonic::Mov as u32);
    assert_eq!(x86::MNEMONIC_MOVSXD, iced_x86::Mnemonic::Movsxd as u32);
    assert_eq!(x86::MNEMONIC_MOVZX, iced_x86::Mnemonic::Movzx as u32);
    assert_eq!(x86::MNEMONIC_MOVSX, iced_x86::Mnemonic::Movsx as u32);
    assert_eq!(x86::MNEMONIC_LEA, iced_x86::Mnemonic::Lea as u32);
    assert_eq!(x86::MNEMONIC_IMUL, iced_x86::Mnemonic::Imul as u32);
    assert_eq!(x86::MNEMONIC_ADD, iced_x86::Mnemonic::Add as u32);
    assert_eq!(x86::MNEMONIC_INC, iced_x86::Mnemonic::Inc as u32);
    assert_eq!(x86::MNEMONIC_SUB, iced_x86::Mnemonic::Sub as u32);
    assert_eq!(x86::MNEMONIC_DEC, iced_x86::Mnemonic::Dec as u32);
    assert_eq!(x86::MNEMONIC_PUSH, iced_x86::Mnemonic::Push as u32);
    assert_eq!(x86::MNEMONIC_POP, iced_x86::Mnemonic::Pop as u32);
    assert_eq!(x86::MNEMONIC_CMOVNE, iced_x86::Mnemonic::Cmovne as u32);
    assert_eq!(x86::MNEMONIC_TEST, iced_x86::Mnemonic::Test as u32);
    assert_eq!(x86::MNEMONIC_CMP, iced_x86::Mnemonic::Cmp as u32);
    assert_eq!(x86::MNEMONIC_JE, iced_x86::Mnemonic::Je as u32);
    assert_eq!(x86::MNEMONIC_JNE, iced_x86::Mnemonic::Jne as u32);
    assert_eq!(x86::MNEMONIC_JB, iced_x86::Mnemonic::Jb as u32);
    assert_eq!(x86::MNEMONIC_JAE, iced_x86::Mnemonic::Jae as u32);
    assert_eq!(x86::MNEMONIC_JBE, iced_x86::Mnemonic::Jbe as u32);
    assert_eq!(x86::MNEMONIC_JG, iced_x86::Mnemonic::Jg as u32);
    assert_eq!(x86::MNEMONIC_JL, iced_x86::Mnemonic::Jl as u32);
    assert_eq!(x86::MNEMONIC_JGE, iced_x86::Mnemonic::Jge as u32);
    assert_eq!(x86::MNEMONIC_JLE, iced_x86::Mnemonic::Jle as u32);
    assert_eq!(x86::MNEMONIC_JMP, iced_x86::Mnemonic::Jmp as u32);
    assert_eq!(x86::MNEMONIC_SHL, iced_x86::Mnemonic::Shl as u32);
    assert_eq!(x86::MNEMONIC_SHR, iced_x86::Mnemonic::Shr as u32);
    assert_eq!(x86::MNEMONIC_XOR, iced_x86::Mnemonic::Xor as u32);
    assert_eq!(x86::MNEMONIC_RET, iced_x86::Mnemonic::Ret as u32);
    assert_eq!(x86::MNEMONIC_NOP, iced_x86::Mnemonic::Nop as u32);
    assert_eq!(x86::CODE_MOVZX_R32_RM8, iced_x86::Code::Movzx_r32_rm8 as u32);
    assert_eq!(x86::CODE_MOVZX_R32_RM16, iced_x86::Code::Movzx_r32_rm16 as u32);
    assert_eq!(x86::CODE_MOVZX_R64_RM8, iced_x86::Code::Movzx_r64_rm8 as u32);
    assert_eq!(x86::CODE_MOVZX_R64_RM16, iced_x86::Code::Movzx_r64_rm16 as u32);
    assert_eq!(x86::CODE_MOVSX_R32_RM8, iced_x86::Code::Movsx_r32_rm8 as u32);
    assert_eq!(x86::CODE_MOVSX_R32_RM16, iced_x86::Code::Movsx_r32_rm16 as u32);
    assert_eq!(x86::CODE_MOVSX_R64_RM8, iced_x86::Code::Movsx_r64_rm8 as u32);
    assert_eq!(x86::CODE_MOVSX_R64_RM16, iced_x86::Code::Movsx_r64_rm16 as u32);
    assert_eq!(x86::CODE_LEA_R32_M, iced_x86::Code::Lea_r32_m as u32);
    assert_eq!(x86::CODE_LEA_R64_M, iced_x86::Code::Lea_r64_m as u32);
    assert_eq!(x86::CODE_IMUL_R32_RM32_IMM32, iced_x86::Code::Imul_r32_rm32_imm32 as u32);
    assert_eq!(x86::CODE_IMUL_R32_RM32_IMM8, iced_x86::Code::Imul_r32_rm32_imm8 as u32);
    assert_eq!(x86::CODE_TEST_RM8_R8, iced_x86::Code::Test_rm8_r8 as u32);
    assert_eq!(x86::CODE_TEST_RM32_R32, iced_x86::Code::Test_rm32_r32 as u32);
    assert_eq!(x86::CODE_TEST_RM64_R64, iced_x86::Code::Test_rm64_r64 as u32);
    assert_eq!(x86::CODE_JG_REL8_64, iced_x86::Code::Jg_rel8_64 as u32);
    assert_eq!(x86::CODE_JG_REL32_64, iced_x86::Code::Jg_rel32_64 as u32);
    assert_eq!(x86::CODE_JL_REL8_64, iced_x86::Code::Jl_rel8_64 as u32);
    assert_eq!(x86::CODE_JL_REL32_64, iced_x86::Code::Jl_rel32_64 as u32);
    assert_eq!(x86::CODE_JGE_REL8_64, iced_x86::Code::Jge_rel8_64 as u32);
    assert_eq!(x86::CODE_JGE_REL32_64, iced_x86::Code::Jge_rel32_64 as u32);
    assert_eq!(x86::CODE_JLE_REL8_64, iced_x86::Code::Jle_rel8_64 as u32);
    assert_eq!(x86::CODE_JLE_REL32_64, iced_x86::Code::Jle_rel32_64 as u32);
    assert_eq!(x86::CODE_JE_REL8_64, iced_x86::Code::Je_rel8_64 as u32);
    assert_eq!(x86::CODE_JE_REL32_64, iced_x86::Code::Je_rel32_64 as u32);
    assert_eq!(x86::CODE_JNE_REL8_64, iced_x86::Code::Jne_rel8_64 as u32);
    assert_eq!(x86::CODE_JNE_REL32_64, iced_x86::Code::Jne_rel32_64 as u32);
    assert_eq!(x86::CODE_JB_REL8_64, iced_x86::Code::Jb_rel8_64 as u32);
    assert_eq!(x86::CODE_JAE_REL8_64, iced_x86::Code::Jae_rel8_64 as u32);
    assert_eq!(x86::CODE_JBE_REL8_64, iced_x86::Code::Jbe_rel8_64 as u32);
    assert_eq!(x86::CODE_XOR_R32_RM32, iced_x86::Code::Xor_r32_rm32 as u32);
    assert_eq!(x86::CODE_XOR_RM32_R32, iced_x86::Code::Xor_rm32_r32 as u32);
    assert_eq!(x86::CODE_RETNQ, iced_x86::Code::Retnq as u32);
    assert_eq!(x86::OPERAND_REGISTER, iced_x86::OpKind::Register as u32);
    assert_eq!(x86::OPERAND_NEAR_BRANCH64, iced_x86::OpKind::NearBranch64 as u32);
    assert_eq!(x86::OPERAND_IMMEDIATE8, iced_x86::OpKind::Immediate8 as u32);
    assert_eq!(x86::OPERAND_IMMEDIATE16, iced_x86::OpKind::Immediate16 as u32);
    assert_eq!(x86::OPERAND_IMMEDIATE32, iced_x86::OpKind::Immediate32 as u32);
    assert_eq!(x86::OPERAND_IMMEDIATE64, iced_x86::OpKind::Immediate64 as u32);
    assert_eq!(x86::OPERAND_IMMEDIATE8TO16, iced_x86::OpKind::Immediate8to16 as u32);
    assert_eq!(x86::OPERAND_IMMEDIATE8TO32, iced_x86::OpKind::Immediate8to32 as u32);
    assert_eq!(x86::OPERAND_IMMEDIATE8TO64, iced_x86::OpKind::Immediate8to64 as u32);
    assert_eq!(x86::OPERAND_IMMEDIATE32TO64, iced_x86::OpKind::Immediate32to64 as u32);
    assert_eq!(x86::OPERAND_MEMORY, iced_x86::OpKind::Memory as u32);
}

#[test]
fn decodes_memory_operands() {
    let load = x86::decode(&[0x8b, 0x49, 0x2c], 0x1000);
    assert_eq!(load.ip, 0x1000);
    assert_eq!(load.length, 3);
    assert_eq!(load.mnemonic, x86::MNEMONIC_MOV);
    assert_eq!(load.code, iced_x86::Code::Mov_r32_rm32 as u32);
    assert_eq!(load.first.kind, x86::OPERAND_REGISTER);
    assert_eq!(load.first.register.number, iced_x86::Register::ECX as u8);
    assert_eq!(load.second.kind, x86::OPERAND_MEMORY);
    assert_eq!(load.base.number, iced_x86::Register::RCX as u8);
    assert_eq!(load.index.number, x86::NONE);
    assert_eq!(load.scale, 1);
    assert_eq!(load.displacement, 0x2c);
    assert_eq!(load.memory_width, 4);
    assert!(!load.ip_relative);
    assert!(!load.vector_index);
    let scaled = x86::decode(&[0x8b, 0x04, 0x91], 0);
    assert_eq!(scaled.index.number, iced_x86::Register::RDX as u8);
    assert_eq!(scaled.scale, 4);
    let relative = x86::decode(&[0x48, 0x8b, 0x05, 0x10, 0, 0, 0], 0x2000);
    assert!(relative.ip_relative);
    assert_eq!(relative.ip_relative_address, 0x2017);
    assert_eq!(relative.base.number, x86::RIP);
    let short = [0x67, 0x48, 0x8b, 0x05, 0x10, 0, 0, 0];
    let narrow = x86::decode(&short, 0x1_0000_0000);
    assert!(narrow.ip_relative);
    assert_eq!(narrow.base.number, iced_x86::Register::EIP as u8);
    assert_eq!(narrow.ip_relative_address, 0x18);
    let outside = iced_x86::Decoder::with_ip(64, &short, 0x1_0000_0000, 0).decode();
    assert!(outside.is_ip_rel_memory_operand());
    assert_eq!(outside.ip_rel_memory_address(), 0x18);
    let thread = x86::decode(&[0x65, 0x48, 0x8b, 0x04, 0x25, 0x28, 0, 0, 0], 0);
    assert_eq!(thread.segment.number, x86::GS);
    let gather = x86::decode(&[0xc4, 0xe2, 0x71, 0x90, 0x04, 0x11], 0);
    assert!(gather.vector_index);
}

#[test]
fn decodes_immediates_and_targets() {
    let shift = x86::decode(&[0xc1, 0xe2, 0x10], 0);
    assert_eq!(shift.mnemonic, x86::MNEMONIC_SHL);
    assert_eq!(shift.second.kind, x86::OPERAND_IMMEDIATE8);
    assert_eq!(shift.second.immediate, Some(0x10));
    let sum = x86::decode(&[0x48, 0x83, 0xc0, 0xff], 0);
    assert_eq!(sum.second.kind, x86::OPERAND_IMMEDIATE8TO64);
    assert_eq!(sum.second.immediate, Some(u64::MAX));
    assert_eq!(sum.first.immediate, None);
    let jump = x86::decode(&[0x74, 0x1b], 0x1000);
    assert_eq!(jump.mnemonic, x86::MNEMONIC_JE);
    assert_eq!(jump.first.kind, x86::OPERAND_NEAR_BRANCH64);
    assert_eq!(jump.target, 0x101d);
}
