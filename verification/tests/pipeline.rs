use whimper::irt6::unoptimize::Options;
use whimper::{irt0, irt1, irt2, irt3, irt4, irt5, irt6, partitions};

/// Two accumulators, each reduced by repeated subtraction under a guard.
const CODE: &[u8] = &[
    0x4c, 0x8b, 0xc1, 0x8b, 0x49, 0x2c, 0x41, 0x03, 0x48, 0x24, 0x41, 0x8b, 0x40, 0x30, 0x41, 0x01,
    0x40, 0x28, 0x4d, 0x8b, 0x48, 0x38, 0x41, 0x8b, 0x40, 0x28, 0x41, 0x89, 0x48, 0x24, 0x41, 0x8b,
    0x11, 0x85, 0xd2, 0x74, 0x1b, 0xc1, 0xe2, 0x10, 0x3b, 0xca, 0x72, 0x14, 0x0f, 0x1f, 0x40, 0x00,
    0x2b, 0xca, 0x41, 0x89, 0x48, 0x24, 0x41, 0x8b, 0x11, 0xc1, 0xe2, 0x10, 0x3b, 0xca, 0x73, 0xf0,
    0x41, 0x8b, 0x48, 0x34, 0x85, 0xc9, 0x74, 0x12, 0xc1, 0xe1, 0x10, 0x3b, 0xc1, 0x72, 0x0b, 0x90,
    0x2b, 0xc1, 0x3b, 0xc1, 0x73, 0xfa, 0x41, 0x89, 0x40, 0x28, 0x41, 0x8b, 0x40, 0x10, 0xc3,
];

const BASE: usize = 0x140095be0;

fn tier1() -> irt1::ir::Program {
    irt1::try_lift(&irt0::try_lift_at(CODE, BASE).unwrap()).unwrap()
}

fn tier3() -> irt3::ir::Program {
    irt3::try_lift(&irt2::try_lift(&tier1()).unwrap()).unwrap()
}

fn tier6() -> irt6::ir::Program {
    irt6::lift(&irt5::lift(&irt4::lift(&tier3())))
}

#[test]
fn renders_tier_1() {
    let text = irt1::render::render(&tier1(), true);
    assert!(text.starts_with("// entry: fn_0\n\nfunction fn_0("));
    assert!(text.contains(
        "function fn_4(EAX, ECX, R8) { // 0x140095c30
    let v0: boolean;
    EAX = EAX - ECX;
    // 0x140095c32
    v0 = unsignedLt(EAX, ECX);
    // 0x140095c34
    if (!v0) {
        return fn_4(EAX, ECX, R8);
    } else {
        return fn_5(EAX, R8);
    }
}
"
    ));
    let plain = irt1::render::render(&tier1(), false);
    assert!(plain.contains(
        "function fn_5(EAX, R8) {
    load<4>(R8 + 0x28) = EAX;
    return fn_2(R8);
}
"
    ));
}

#[test]
fn renders_tier_3() {
    let text = irt3::render::render(&tier3(), true);
    assert!(text.starts_with("// entry: fn_0\n\nfunction fn_0(arg1: Register<RCX>) { // 0x140095be0\n"));
    assert!(text.ends_with(
        "    // 0x140095c3e
    return *((Unknown<4>*)(v8 + 0x10));
}
"
    ));
    assert!(text.contains(
        "            loop {
                v13 = v13 - v14;
                // 0x140095c34
                if (unsignedLt(v13, v14)) {
                    break;
                }
            }
"
    ));
}

#[test]
fn lifts_to_tier_6() {
    assert_eq!(
        irt6::render::render(&tier6(), true),
        "// entry: fn_0

function fn_0(arg1: Unknown*) { // 0x140095be0
    // 0x140095be6
    let v0: u32 = *(arg1 + 0x2c) + *(arg1 + 0x24);
    // 0x140095bee
    *(arg1 + 0x28) = *(arg1 + 0x28) + *(arg1 + 0x30);
    // 0x140095bf2
    let v1: i32* = *(arg1 + 0x38);
    // 0x140095bf6
    let v2: u32 = *(arg1 + 0x28);
    // 0x140095bfa
    *(arg1 + 0x24) = v0;
    // 0x140095bfe
    let v3: i32 = *(v1);
    // 0x140095c03
    if (v3 !== 0x0) {
        let v4: u32 = v3 << 0x10;
        if (v0 u>= v4) {
            let v5: u32 = v0;
            let v6: u32 = v4;
            do {
                v5 = v5 - v6;
                // 0x140095c12
                *(arg1 + 0x24) = v5;
                // 0x140095c19
                v6 = *(v1) << 0x10;
                // 0x140095c1e
            } while (v5 u>= v6);
        }
    }
    // 0x140095c20
    let v7: i32 = *(arg1 + 0x34);
    // 0x140095c26
    if (v7 !== 0x0) {
        let v8: u32 = v7 << 0x10;
        if (v2 u>= v8) {
            let v9: u32 = v2;
            do {
                v9 = v9 - v8;
                // 0x140095c34
            } while (v9 u>= v8);
            *(arg1 + 0x28) = v9;
        }
    }
    // 0x140095c3e
    return *(arg1 + 0x10);
}
"
    );
}

#[test]
fn recovers_the_remainder() {
    let mut program = tier6();
    let report = irt6::unoptimize::run(&mut program);
    assert_eq!(
        irt6::render::render(&program, false),
        "// entry: fn_0

function fn_0(arg1: Unknown*) {
    let v0: u32 = *(arg1 + 0x2c) + *(arg1 + 0x24);
    *(arg1 + 0x28) += *(arg1 + 0x30);
    let v1: i32* = *(arg1 + 0x38);
    let v2: u32 = *(arg1 + 0x28);
    *(arg1 + 0x24) = v0;
    let v3: i32 = *(v1);
    if (v3 !== 0x0) {
        let v4: u32 = v3 << 0x10;
        if (v0 u>= v4) {
            let v5: u32 = v0;
            let v6: u32 = v4;
            while (v5 u>= v6) {
                v5 -= v6;
                *(arg1 + 0x24) = v5;
                v6 = *(v1) << 0x10;
            }
        }
    }
    let v7: i32 = *(arg1 + 0x34);
    if (v7 !== 0x0) {
        let v8: u32 = v7 << 0x10;
        *(arg1 + 0x28) = v2 u% v8;
    }
    return *(arg1 + 0x10);
}
"
    );
    let rewrites: Vec<(usize, &str)> = report
        .rewrites
        .iter()
        .map(|rewrite| (rewrite.offset, rewrite.rule))
        .collect();
    assert_eq!(
        rewrites,
        vec![
            (0x140095bee, "compound-assignment"),
            (0x140095c10, "guarded-do-to-while"),
            (0x140095c10, "compound-assignment"),
            (0x140095c30, "guarded-do-to-while"),
            (0x140095c30, "repeated-subtraction-to-remainder"),
            (0x140095c26, "compound-assignment"),
            (0x140095c26, "temporary-binary-to-assignment"),
            (0x140095c26, "eliminate-guarded-modulo"),
        ]
    );
    let text = report.render();
    assert!(text.starts_with("// Tier 6 arithmetic analysis (bit-vector sums)\n// input loop 0x140095c10: UnsignedGe(v5, v6)\n"));
    assert!(text.contains(
        "// input loop 0x140095c30: UnsignedGe(v9, v8)
//   v9' = (-v8 + v9) mod 2^32
//   repeated subtraction: v9, stride v8, u32
//   blocked: entry condition has not been proved; guarded loop rotation required
"
    ));
    assert!(text.ends_with("// rewrite at 0x140095c26: eliminate-guarded-modulo\n"));
    assert_eq!(report.remaining.len(), 1);
    assert!(!report.budget_exhausted);
}

#[test]
fn keeps_a_loop_whose_stride_may_be_zero() {
    let mut program = tier6();
    let options = Options { allow_assumptions: false };
    let report = irt6::unoptimize::run_with_options(&mut program, options);
    assert!(report
        .rewrites
        .iter()
        .all(|rewrite| rewrite.rule != "repeated-subtraction-to-remainder"));
    assert_eq!(report.remaining.len(), 2);
    assert!(Options::default().allow_assumptions);
}

#[test]
fn sample_partitions_read_no_foreign_flags() {
    let program = irt0::try_lift_at(CODE, BASE).unwrap();
    let entries = partitions::partition_entries(&program).unwrap();
    for address in [BASE, 0x140095c20, 0x140095c10, 0x140095c30, 0x140095c3a] {
        assert!(entries.contains(address));
    }
    for entry in entries.items() {
        let partition = partitions::analyze_partition(*entry, &program);
        assert_eq!(partition.entry_point, *entry);
        assert!(partition.external_flags.is_empty());
    }
}

#[test]
fn refuses_unsupported_instructions() {
    assert!(irt0::try_lift(&[0x0f, 0x0b]).is_none());
    assert!(!irt0::is_liftable(&[0x0f, 0x0b], 0));
    assert!(irt0::is_liftable(&[0xc3], 0));
    assert_eq!(irt0::lift(&[0xc3]).instructions.len(), 1);
}

fn tier2_of(code: &[u8]) -> irt2::ir::Program {
    irt2::try_lift(&irt1::try_lift(&irt0::try_lift_at(code, 0x1000).unwrap()).unwrap()).unwrap()
}

fn text_of(code: &[u8]) -> String {
    let tier3 = irt3::try_lift(&tier2_of(code)).unwrap();
    irt6::render::render(&irt6::lift(&irt5::lift(&irt4::lift(&tier3))), false)
}

#[test]
fn a_spilled_value_is_read_back() {
    // mov [rsp+8], ecx; mov eax, [rsp+8]; ret
    let code = [0x89, 0x4c, 0x24, 0x08, 0x8b, 0x44, 0x24, 0x08, 0xc3];
    let function = &tier2_of(&code).functions[0];
    assert!(matches!(
        function.parameters[..],
        [irt2::ir::Parameter::Native { ordinal: 1, .. }]
    ));
    let text = text_of(&code);
    assert!(text.contains("return arg1;"), "{}", text);
}

#[test]
fn a_value_on_the_stack_can_be_an_argument() {
    // mov eax, [rsp+0x28]; ret
    let code = [0x8b, 0x44, 0x24, 0x28, 0xc3];
    let function = &tier2_of(&code).functions[0];
    assert_eq!(
        function.parameters,
        vec![irt2::ir::Parameter::Input { ordinal: 1, size: 4 }]
    );
    let text = text_of(&code);
    assert!(text.contains("return arg1;"), "{}", text);
    let tier3 = irt3::try_lift(&tier2_of(&code)).unwrap();
    assert!(irt3::render::render(&tier3, false).contains("function fn_0(arg1: Unknown<4>) {"));
}

#[test]
fn a_value_on_the_stack_is_handed_on() {
    // mov [rsp+8], ecx; test edx, edx; je over; mov eax, [rsp+8]; ret;
    // over: xor eax, eax; ret
    let code = [
        0x89, 0x4c, 0x24, 0x08, 0x85, 0xd2, 0x74, 0x05, 0x8b, 0x44, 0x24, 0x08, 0xc3, 0x31, 0xc0,
        0xc3,
    ];
    let program = tier2_of(&code);
    assert!(program.functions.iter().any(|function| function
        .parameters
        .iter()
        .any(|p| matches!(p, irt2::ir::Parameter::Value { size: 4, .. }))));
    let text = text_of(&code);
    assert!(text.contains("return arg1;") && text.contains("return 0x0;"), "{}", text);
}

#[test]
fn a_part_of_a_stack_cell_keeps_the_rest() {
    // mov [rsp+8], rcx; mov [rsp+9], dl; mov rax, [rsp+8]; ret
    let code = [
        0x48, 0x89, 0x4c, 0x24, 0x08, 0x88, 0x54, 0x24, 0x09, 0x48, 0x8b, 0x44, 0x24, 0x08, 0xc3,
    ];
    let text = text_of(&code);
    assert!(text.contains("0xffffffffffff00ff"), "{}", text);
    assert!(text.contains("<< 0x8"), "{}", text);
    // mov [rsp+8], dl; mov rax, [rsp+8]; ret: the rest of the cell comes in.
    let code = [0x88, 0x54, 0x24, 0x08, 0x48, 0x8b, 0x44, 0x24, 0x08, 0xc3];
    let function = &tier2_of(&code).functions[0];
    assert!(function
        .parameters
        .contains(&irt2::ir::Parameter::Input { ordinal: 2, size: 8 }));
}
