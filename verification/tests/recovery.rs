use whimper::irt6::arithmetic::Context;
use whimper::irt6::ir::{
    DataId, IRBinOpKind, IRExpr, IRInst, IntegerType, LoopCondition, Parameter, Program,
    SyntheticFunction, SyntheticFunctionId, VariableId, VariableType,
};
use whimper::irt6::unoptimize::sequences::merge_adjacent_branches;
use whimper::irt6::unoptimize::Report;
use whimper::irt6::{
    eliminate_variables, infer_returns, infer_types, relocate_variables, render, shapes,
};

fn v(id: usize) -> VariableId {
    VariableId { owner: SyntheticFunctionId { id: 0 }, id }
}

fn var(id: usize) -> IRExpr {
    IRExpr::Variable(v(id))
}

fn op(kind: IRBinOpKind, lhs: IRExpr, rhs: IRExpr) -> IRExpr {
    IRExpr::BinOp { kind, lhs: Box::new(lhs), rhs: Box::new(rhs) }
}

fn not(inner: IRExpr) -> IRExpr {
    IRExpr::Not(Box::new(inner))
}

fn function(parameters: Vec<Parameter>, body: Vec<IRInst>) -> SyntheticFunction {
    SyntheticFunction {
        entry_offset: 0,
        parameters,
        return_type: None,
        body: body.into_iter().map(|instr| (0, instr)).collect(),
    }
}

fn program(functions: Vec<SyntheticFunction>) -> Program {
    Program {
        entry: Some(SyntheticFunctionId { id: 0 }),
        data: Vec::new(),
        functions,
        structs: Vec::new(),
    }
}

fn argument(ty: VariableType) -> Parameter {
    Parameter::Argument { ordinal: 1, ty }
}

fn declare(id: usize, bits: usize, value: IRExpr) -> IRInst {
    IRInst::DeclareAndAssignVariable {
        variable: v(id),
        ty: VariableType::UnsignedInteger(bits),
        value,
    }
}

fn text(program: &Program) -> String {
    render::render(program, false)
}

#[test]
fn pushes_negations_through_chains() {
    let chain = op(IRBinOpKind::Or, op(IRBinOpKind::Eq, var(0), var(1)), IRExpr::Bool(true));
    let pushed = shapes::boolean::de_morgan(&not(chain.clone())).unwrap();
    assert!(pushed.same(&op(
        IRBinOpKind::LogicalAnd,
        op(IRBinOpKind::Ne, var(0), var(1)),
        not(IRExpr::Bool(true)),
    )));
    assert!(shapes::boolean::de_morgan(&chain).is_none());
    assert!(shapes::boolean::de_morgan(&not(op(IRBinOpKind::And, var(0), var(1)))).is_none());
}

#[test]
fn returns_a_condition_as_a_truth_value() {
    let branch = IRInst::If {
        condition: var(0),
        then_branch: vec![IRInst::Return(Some(IRExpr::CU8(1)))],
        else_branch: vec![IRInst::Return(Some(IRExpr::CU8(0)))],
    };
    let value = shapes::boolean::boolean_return(&branch).unwrap();
    assert!(value.same(&not(not(var(0)))));
}

#[test]
fn sums_are_normalized_modulo_their_width() {
    let function = function(
        vec![
            Parameter::Slot { variable: v(0), ty: VariableType::UnsignedInteger(32) },
            Parameter::Slot { variable: v(1), ty: VariableType::UnsignedInteger(32) },
        ],
        Vec::new(),
    );
    let context = Context::from_function(&function);
    let left = op(
        IRBinOpKind::Sub,
        op(IRBinOpKind::Add, var(0), var(1)),
        var(0),
    );
    assert!(context.value(&left).same(&context.value(&var(1))));
    let wrapped = op(IRBinOpKind::Add, var(0), IRExpr::CU32(u32::MAX));
    let less = op(IRBinOpKind::Sub, var(0), IRExpr::CU32(1));
    assert!(context.value(&wrapped).same(&context.value(&less)));
    assert!(!context.value(&wrapped).same(&context.value(&var(0))));
}

#[test]
fn merges_checks_of_the_same_condition() {
    let check = |id: usize| IRInst::If {
        condition: var(0),
        then_branch: vec![IRInst::AssignVariable { variable: v(id), value: IRExpr::CU8(1) }],
        else_branch: Vec::new(),
    };
    let mut report = Report {
        before: Vec::new(),
        rewrites: Vec::new(),
        remaining: Vec::new(),
        budget_exhausted: false,
    };
    let merged = merge_adjacent_branches(vec![(1, check(1)), (2, check(2))], &mut report);
    assert_eq!(merged.len(), 1);
    assert_eq!(merged[0].0, 1);
    assert_eq!(report.rewrites.len(), 1);
    assert_eq!(report.rewrites[0].offset, 2);
    let kept = merge_adjacent_branches(vec![(1, check(0)), (2, check(2))], &mut report);
    assert_eq!(kept.len(), 2);
}

#[test]
fn moves_a_local_into_its_branch() {
    let mut moved = program(vec![function(
        vec![argument(VariableType::UnsignedInteger(32))],
        vec![
            declare(0, 32, op(IRBinOpKind::Add, IRExpr::Argument(1), IRExpr::CU32(1))),
            IRInst::If {
                condition: IRExpr::Argument(1),
                then_branch: vec![IRInst::Return(Some(var(0)))],
                else_branch: Vec::new(),
            },
            IRInst::Return(None),
        ],
    )]);
    relocate_variables::run(&mut moved);
    assert_eq!(
        text(&moved),
        "// entry: fn_0

function fn_0(arg1: u32) {
    if (arg1) {
        let v0: u32 = arg1 + 0x1;
        return v0;
    }
    return;
}
"
    );
}

#[test]
fn folds_a_copy_into_its_only_use() {
    let mut folded = program(vec![function(
        vec![argument(VariableType::UnsignedInteger(32))],
        vec![
            declare(0, 32, op(IRBinOpKind::Add, IRExpr::Argument(1), IRExpr::CU32(1))),
            declare(1, 32, var(0)),
            IRInst::Return(Some(op(IRBinOpKind::Mul, var(1), var(1)))),
        ],
    )]);
    eliminate_variables::run(&mut folded);
    let once = text(&folded);
    assert_eq!(
        once,
        "// entry: fn_0

function fn_0(arg1: u32) {
    let v1: u32 = arg1 + 0x1;
    return v1 * v1;
}
"
    );
    eliminate_variables::run(&mut folded);
    assert_eq!(text(&folded), once);
}

#[test]
fn infers_a_result_type() {
    let mut typed = program(vec![function(
        vec![argument(VariableType::UnsignedInteger(32))],
        vec![
            IRInst::If {
                condition: IRExpr::Argument(1),
                then_branch: vec![IRInst::Return(Some(IRExpr::CU32(0)))],
                else_branch: Vec::new(),
            },
            IRInst::Return(Some(IRExpr::Argument(1))),
        ],
    )]);
    infer_returns::run(&mut typed);
    assert!(typed.functions[0]
        .return_type
        .as_ref()
        .unwrap()
        .same(&VariableType::UnsignedInteger(32)));
}

#[test]
fn keeps_conflicting_results_in_locals() {
    let mut lowered = program(vec![function(
        vec![argument(VariableType::UnsignedInteger(32))],
        vec![
            IRInst::If {
                condition: IRExpr::Argument(1),
                then_branch: vec![IRInst::Return(Some(IRExpr::CU8(0)))],
                else_branch: Vec::new(),
            },
            IRInst::Return(Some(IRExpr::Argument(1))),
        ],
    )]);
    infer_returns::run(&mut lowered);
    assert!(lowered.functions[0].return_type.is_none());
    assert_eq!(
        text(&lowered),
        "// entry: fn_0

function fn_0(arg1: u32) {
    if (arg1) {
        let v0: i8 = 0x0;
        return;
    }
    let v1: u32 = arg1;
    return;
}
"
    );
}

fn bytes() -> VariableType {
    VariableType::Vector(Box::new(VariableType::Integer(8)))
}

#[test]
fn promotes_walked_bytes_to_a_string() {
    let walk = IRInst::ForEach {
        entry_offset: 0,
        condition_offset: 0,
        advance_offset: 0,
        load_offset: 0,
        variable: v(2),
        element_type: VariableType::Integer(8),
        vector: var(0),
        start: 0,
        index_bits: 32,
        body: Vec::new(),
    };
    let mut promoted = program(vec![function(
        vec![argument(bytes())],
        vec![
            IRInst::DeclareAndAssignVariable {
                variable: v(0),
                ty: bytes(),
                value: IRExpr::Argument(1),
            },
            IRInst::DeclareVariable { variable: v(1), ty: bytes() },
            walk,
            IRInst::Return(None),
        ],
    )]);
    infer_types::run(&mut promoted);
    match &promoted.functions[0].parameters[0] {
        Parameter::Argument { ty, .. } => assert!(ty.same(&VariableType::CString)),
        Parameter::Slot { .. } => panic!("a slot"),
    }
    match &promoted.functions[0].body[1].1 {
        IRInst::DeclareVariable { ty, .. } => assert!(ty.same(&bytes())),
        _ => panic!("no declaration"),
    }
}

#[test]
fn a_do_loop_under_its_guard_is_a_remainder() {
    let loop_instr = IRInst::While {
        label: None,
        entry_offset: 7,
        condition: LoopCondition::After {
            offset: 9,
            expression: op(IRBinOpKind::UnsignedGe, var(0), var(1)),
        },
        body: vec![(
            8,
            IRInst::AssignVariable { variable: v(0), value: op(IRBinOpKind::Sub, var(0), var(1)) },
        )],
    };
    let mut recovered = program(vec![function(
        vec![
            Parameter::Slot { variable: v(0), ty: VariableType::UnsignedInteger(32) },
            Parameter::Slot { variable: v(1), ty: VariableType::UnsignedInteger(32) },
        ],
        vec![
            IRInst::If {
                condition: op(IRBinOpKind::UnsignedGe, var(0), var(1)),
                then_branch: vec![loop_instr],
                else_branch: Vec::new(),
            },
            IRInst::Return(Some(var(0))),
        ],
    )]);
    let report = whimper::irt6::unoptimize::run(&mut recovered);
    assert_eq!(
        text(&recovered),
        "// entry: fn_0

function fn_0(v0: u32, v1: u32) {
    v0 u%= v1;
    return v0;
}
"
    );
    assert!(report.remaining.is_empty());
}

#[test]
fn conversions_and_data_are_shown() {
    let shown = program(vec![function(
        Vec::new(),
        vec![IRInst::Return(Some(IRExpr::Convert {
            value: Box::new(IRExpr::Data(DataId { id: 0x10 })),
            source: IntegerType { size: 1, signed: false },
            target: IntegerType { size: 4, signed: true },
        }))],
    )]);
    assert_eq!(
        text(&shown),
        "// entry: fn_0

function fn_0() {
    return i32(u8(data_0x10));
}
"
    );
}
