use whimper::irt1::builder::{partition, SyntheticFunctionBuilder};
use whimper::irt3::cfg::{eliminate_branches, postdominators, Node, Transfer};
use whimper::irt3::inline_trivial_loops::{add_alias, canonical_variable};
use whimper::irt6::arithmetic::Context;
use whimper::irt6::effects::Effects;
use whimper::irt6::ir::{
    IRBinOpKind, IRExpr, IRInst, LoopCondition, LoopId, Parameter, Program, SyntheticFunction,
    SyntheticFunctionId, VariableId, VariableType,
};
use whimper::irt6::shapes::assignment::compound_assignment;
use whimper::irt6::unoptimize::facts::{Facts, Writer};
use whimper::irt6::{eliminate_variables, infer_returns, render};
use whimper::{irt0, irt1, irt2, irt3, irt4, irt5, irt6};

fn v(id: usize) -> VariableId {
    VariableId { owner: SyntheticFunctionId { id: 0 }, id }
}

fn var(id: usize) -> IRExpr {
    IRExpr::Variable(v(id))
}

fn op(kind: IRBinOpKind, lhs: IRExpr, rhs: IRExpr) -> IRExpr {
    IRExpr::BinOp { kind, lhs: Box::new(lhs), rhs: Box::new(rhs) }
}

fn bytes_context() -> Context {
    let slot = |id: usize| Parameter::Slot {
        variable: v(id),
        ty: VariableType::UnsignedInteger(8),
    };
    Context::from_function(&SyntheticFunction {
        entry_offset: 0,
        parameters: vec![slot(0), slot(1)],
        return_type: None,
        body: Vec::new(),
    })
}

#[test]
fn sums_keep_their_value_and_are_reduced() {
    let context = bytes_context();
    let same = |a: &IRExpr, b: &IRExpr| context.value(a).same(&context.value(b));
    // (x + 200) + (x * 2 + 60) == x * 3 + 4, modulo 256.
    let left = op(
        IRBinOpKind::Add,
        op(IRBinOpKind::Add, var(0), IRExpr::CU8(200)),
        op(IRBinOpKind::Add, op(IRBinOpKind::Mul, var(0), IRExpr::CU8(2)), IRExpr::CU8(60)),
    );
    let right = op(
        IRBinOpKind::Add,
        op(IRBinOpKind::Mul, IRExpr::CU8(3), var(0)),
        IRExpr::CU8(4),
    );
    assert!(same(&left, &right));
    // x << 7 and x * 128 agree, and doubling either leaves nothing.
    let shifted = op(IRBinOpKind::Shl, var(0), IRExpr::CU8(7));
    let scaled = op(IRBinOpKind::Mul, var(0), IRExpr::CU8(128));
    assert!(same(&shifted, &scaled));
    assert!(same(&op(IRBinOpKind::Add, shifted.clone(), scaled), &IRExpr::CU8(0)));
    assert!(!same(&shifted, &var(0)));
    assert!(!same(&op(IRBinOpKind::Sub, var(0), var(1)), &op(IRBinOpKind::Sub, var(1), var(0))));
    let difference = context.value(&var(0)).subtract(&context.value(&var(1))).unwrap();
    assert!(difference.same(&context.value(&op(IRBinOpKind::Sub, var(0), var(1)))));
}

#[test]
fn writes_take_facts_away() {
    let context = bytes_context();
    let value = context.value(&var(0));
    let zero = op(IRBinOpKind::Eq, var(0), IRExpr::CU8(0));
    let mut facts = Facts::new();
    facts.assume_condition(&zero, true, &context);
    assert_eq!(facts.is_zero(&value), Some(true));
    let other = IRInst::AssignVariable { variable: v(1), value: IRExpr::CU8(7) };
    facts.invalidate(&Effects::of_instruction(&other), Writer::One(&other));
    assert_eq!(facts.is_zero(&value), Some(true));
    let own = IRInst::AssignVariable { variable: v(0), value: IRExpr::CU8(7) };
    facts.invalidate(&Effects::of_instruction(&own), Writer::One(&own));
    assert_eq!(facts.is_zero(&value), None);
}

#[test]
fn operands_change_places_only_where_they_commute() {
    let assign = |kind: IRBinOpKind, lhs: IRExpr, rhs: IRExpr| IRInst::AssignVariable {
        variable: v(0),
        value: op(kind, lhs, rhs),
    };
    let made = compound_assignment(&assign(IRBinOpKind::Sub, var(0), var(1))).unwrap();
    assert!(made.dest.same(&var(0)) && made.value.same(&var(1)));
    assert!(made.kind == IRBinOpKind::Sub);
    let turned = compound_assignment(&assign(IRBinOpKind::Add, var(1), var(0))).unwrap();
    assert!(turned.dest.same(&var(0)) && turned.value.same(&var(1)));
    assert!(compound_assignment(&assign(IRBinOpKind::Sub, var(1), var(0))).is_none());
    assert!(compound_assignment(&assign(IRBinOpKind::Or, var(1), var(0))).is_none());
}

fn node(transfer: Transfer) -> Node {
    Node { offset: 0, body: Vec::new(), transfer }
}

fn fork(then_node: usize, else_node: usize) -> Node {
    node(Transfer::Branch { condition: irt3::ir::IRExpr::Bool(true), then_node, else_node })
}

#[test]
fn continuations_lie_on_every_way_out() {
    let nodes = vec![
        fork(1, 2),
        node(Transfer::Goto(3)),
        node(Transfer::Goto(3)),
        node(Transfer::Exit(irt3::ir::IRInst::Return(None))),
    ];
    assert_eq!(postdominators(&nodes, 0), vec![Some(3), Some(3), Some(3), None]);
    let closed = vec![fork(1, 2), node(Transfer::Goto(2)), node(Transfer::Goto(1))];
    assert_eq!(postdominators(&closed, 0), vec![None, None, None]);
}

#[test]
fn what_is_read_from_memory_is_no_constant() {
    let owner = irt2::ir::SyntheticFunctionId { id: 0 };
    let local = |id: usize| irt2::ir::VariableId { owner, id };
    let declare = |id: usize| irt2::ir::IRInst::DeclareVariable {
        variable: local(id),
        ty: irt2::ir::VariableType::Unknown(Some(4)),
    };
    let body = vec![
        declare(0),
        declare(1),
        irt2::ir::IRInst::AssignVariable {
            variable: local(0),
            value: irt2::ir::IRExpr::CU32(5),
        },
        irt2::ir::IRInst::LoadVariable {
            variable: local(1),
            address: irt2::ir::IRExpr::CU64(0x1000),
        },
        irt2::ir::IRInst::Return(Some(irt2::ir::IRExpr::BinOp {
            kind: irt2::ir::IRBinOpKind::Add,
            lhs: Box::new(irt2::ir::IRExpr::Variable(local(0))),
            rhs: Box::new(irt2::ir::IRExpr::Variable(local(1))),
        })),
    ];
    let mut program = irt2::ir::Program {
        entry_address: 0,
        entry: Some(owner),
        data: Vec::new(),
        functions: vec![irt2::ir::SyntheticFunction {
            entry_offset: 0,
            parameters: Vec::new(),
            body: body.into_iter().map(|instr| (0, instr)).collect(),
        }],
    };
    irt2::constants::run(&mut program);
    let last = format!("{:?}", program.functions[0].body.last().unwrap().1);
    assert!(last.contains("CU32(5)"));
    assert!(last.contains("Variable("));
}

fn slot4(id: usize) -> irt4::ir::VariableId {
    irt4::ir::VariableId { owner: irt4::ir::SyntheticFunctionId { id: 0 }, id }
}

fn local4(id: usize) -> irt4::ir::IRInst {
    irt4::ir::IRInst::DeclareVariable {
        variable: slot4(id),
        ty: irt4::ir::VariableType::Unknown(Some(4)),
    }
}

fn assign4(id: usize, value: irt4::ir::IRExpr) -> irt4::ir::IRInst {
    irt4::ir::IRInst::AssignVariable { variable: slot4(id), value }
}

fn program4(body: Vec<irt4::ir::IRInst>) -> irt4::ir::Program {
    irt4::ir::Program {
        entry_address: 0,
        entry: Some(irt4::ir::SyntheticFunctionId { id: 0 }),
        data: Vec::new(),
        functions: vec![irt4::ir::SyntheticFunction {
            entry_offset: 0,
            parameters: vec![irt4::ir::Parameter::Argument { ordinal: 1, size: 4 }],
            body: body.into_iter().map(|instr| (0, instr)).collect(),
        }],
    }
}

#[test]
fn passes_leave_nothing_to_do_again() {
    let chain = || {
        program4(vec![
            local4(0),
            local4(1),
            local4(2),
            assign4(0, irt4::ir::IRExpr::Argument(1)),
            assign4(1, irt4::ir::IRExpr::Variable(slot4(0))),
            assign4(2, irt4::ir::IRExpr::Variable(slot4(1))),
            irt4::ir::IRInst::Return(Some(irt4::ir::IRExpr::Variable(slot4(2)))),
        ])
    };
    let mut program = chain();
    irt4::eliminate_aliases::run(&mut program);
    assert_eq!(program.functions[0].body.len(), 1);
    let once = format!("{:?}", program);
    irt4::eliminate_aliases::run(&mut program);
    assert_eq!(format!("{:?}", program), once);

    let mut program = program4(vec![
        local4(0),
        local4(1),
        assign4(0, irt4::ir::IRExpr::CU32(1)),
        assign4(1, irt4::ir::IRExpr::Variable(slot4(0))),
        assign4(0, irt4::ir::IRExpr::Argument(1)),
        irt4::ir::IRInst::Return(Some(irt4::ir::IRExpr::Argument(1))),
    ]);
    irt4::fold_constants::run(&mut program);
    assert_eq!(program.functions[0].body.len(), 3);
    let once = format!("{:?}", program);
    irt4::fold_constants::run(&mut program);
    irt4::coalesce_loop_copies::run(&mut program);
    irt4::inline_loop_conditions::run(&mut program);
    assert_eq!(format!("{:?}", program), once);
}

fn program6(functions: Vec<Vec<IRInst>>) -> Program {
    Program {
        entry: Some(SyntheticFunctionId { id: 0 }),
        data: Vec::new(),
        functions: functions
            .into_iter()
            .map(|body| SyntheticFunction {
                entry_offset: 0,
                parameters: Vec::new(),
                return_type: None,
                body: body.into_iter().map(|instr| (0, instr)).collect(),
            })
            .collect(),
        structs: Vec::new(),
    }
}

#[test]
fn settled_bodies_are_stable() {
    let declare = |id: usize, value: IRExpr| IRInst::DeclareAndAssignVariable {
        variable: v(id),
        ty: VariableType::UnsignedInteger(32),
        value,
    };
    let mut program = program6(vec![vec![
        declare(0, IRExpr::CU32(1)),
        declare(1, var(0)),
        declare(2, op(IRBinOpKind::Add, var(1), IRExpr::CU32(2))),
        IRInst::Return(Some(var(2))),
    ]]);
    eliminate_variables::run(&mut program);
    let once = render::render(&program, false);
    eliminate_variables::run(&mut program);
    assert_eq!(render::render(&program, false), once);
}

#[test]
fn long_chains_of_calls_are_followed() {
    let call = |id: usize| IRInst::CallSynthetic {
        function: SyntheticFunctionId { id },
        arguments: Vec::new(),
    };
    let mut program = program6(vec![
        vec![call(1)],
        vec![call(2)],
        vec![call(3)],
        vec![IRInst::If {
            condition: IRExpr::Bool(true),
            then_branch: vec![call(0)],
            else_branch: vec![IRInst::Return(Some(IRExpr::Bool(true)))],
        }],
    ]);
    infer_returns::run(&mut program);
    for function in &program.functions {
        assert!(matches!(function.return_type, Some(VariableType::Bool)));
    }
}

#[test]
fn different_programs_stay_different() {
    let source = |value: u32| irt5::ir::Program {
        entry: Some(irt5::ir::SyntheticFunctionId { id: 0 }),
        data: Vec::new(),
        functions: vec![irt5::ir::SyntheticFunction {
            entry_offset: 0,
            parameters: Vec::new(),
            body: vec![(0, irt5::ir::IRInst::Return(Some(irt5::ir::IRExpr::CU32(value))))],
        }],
        structs: Vec::new(),
    };
    let one = format!("{:?}", irt6::lift(&source(1)));
    let two = format!("{:?}", irt6::lift(&source(2)));
    assert_ne!(one, two);
    assert_eq!(one, format!("{:?}", irt6::lift(&source(1))));
}

type Store = Vec<(irt3::ir::VariableId, u64)>;

fn held(store: &Store, variable: irt3::ir::VariableId) -> u64 {
    store.iter().rev().find(|item| item.0 == variable).unwrap().1
}

fn evaluate(expr: &irt3::ir::IRExpr, store: &Store) -> u64 {
    match expr {
        irt3::ir::IRExpr::Variable(variable) => held(store, *variable),
        irt3::ir::IRExpr::Argument(ordinal) => *ordinal as u64 * 10,
        irt3::ir::IRExpr::Convert { value, .. } => evaluate(value, store),
        other => panic!("{:?}", other),
    }
}

/// Runs assignments up to the first loop, or the body of a loop once.
fn run(body: &Vec<(usize, irt3::ir::IRInst)>, store: &mut Store) -> Option<usize> {
    for (at, (_, instr)) in body.iter().enumerate() {
        match instr {
            irt3::ir::IRInst::AssignVariable { variable, value } => {
                let value = evaluate(value, store);
                store.push((*variable, value));
            }
            irt3::ir::IRInst::Loop { .. } => return Some(at),
            _ => {}
        }
    }
    None
}

#[test]
fn a_call_exchanges_its_arguments() {
    use_exchange(1);
    use_exchange(2);
}

/// `extra` more functions stand between the loop and its own call.
fn use_exchange(extra: usize) {
    let function = |id: usize| irt2::ir::SyntheticFunctionId { id };
    let local = |owner: usize, id: usize| irt2::ir::VariableId { owner: function(owner), id };
    let rcx = whimper::x86::Register { number: 54 };
    let rdx = whimper::x86::Register { number: 55 };
    let read = |owner: usize, id: usize| irt2::ir::IRExpr::Variable(local(owner, id));
    let call = |id: usize, arguments: Vec<irt2::ir::IRExpr>| {
        vec![(0, irt2::ir::IRInst::CallSynthetic { function: function(id), arguments })]
    };
    let mut functions = vec![irt2::ir::SyntheticFunction {
        entry_offset: 0,
        parameters: vec![
            irt2::ir::Parameter::Native { ordinal: 1, register: rcx },
            irt2::ir::Parameter::Native { ordinal: 2, register: rdx },
        ],
        body: call(1, vec![irt2::ir::IRExpr::Argument(1), irt2::ir::IRExpr::Argument(2)]),
    }];
    for id in 1..=extra {
        let target = if id == extra { 1 } else { id + 1 };
        let arguments = if id == extra {
            vec![read(id, 1), read(id, 0)]
        } else {
            vec![read(id, 0), read(id, 1)]
        };
        functions.push(irt2::ir::SyntheticFunction {
            entry_offset: 0,
            parameters: vec![
                irt2::ir::Parameter::Slot { variable: local(id, 0), register: rcx },
                irt2::ir::Parameter::Slot { variable: local(id, 1), register: rdx },
            ],
            body: call(target, arguments),
        });
    }
    let program = irt3::try_lift(&irt2::ir::Program {
        entry_address: 0,
        entry: Some(function(0)),
        data: Vec::new(),
        functions,
    })
    .unwrap();
    let body = &program.functions[0].body;
    let mut store: Store = Vec::new();
    let at = run(body, &mut store).unwrap();
    let before = store.clone();
    if let irt3::ir::IRInst::Loop { body: inner, .. } = &body[at].1 {
        run(inner, &mut store);
    }
    let exchanged = before.iter().any(|a| {
        before.iter().any(|b| {
            held(&before, a.0) == 10
                && held(&before, b.0) == 20
                && held(&store, a.0) == 20
                && held(&store, b.0) == 10
        })
    });
    assert!(exchanged, "{}", irt3::render::render(&program, false));
}

#[test]
fn constants_fold_modulo_their_width() {
    let fold = |kind: irt2::ir::IRBinOpKind, left: u8, right: u8| {
        format!(
            "{:?}",
            irt2::values::binary(
                kind,
                irt2::ir::IRExpr::CU8(left),
                irt2::ir::IRExpr::CU8(right),
                1
            )
        )
    };
    assert_eq!(fold(irt2::ir::IRBinOpKind::Add, 200, 100), "CU8(44)");
    assert_eq!(fold(irt2::ir::IRBinOpKind::Sub, 1, 2), "CU8(255)");
    assert_eq!(fold(irt2::ir::IRBinOpKind::Mul, 16, 17), "CU8(16)");
}

#[test]
fn simplification_drops_neutral_operands() {
    let zero = irt4::ir::IRExpr::CU32(0);
    let value = irt4::ir::IRExpr::BinOp {
        kind: irt4::ir::IRBinOpKind::Add,
        lhs: Box::new(zero.clone()),
        rhs: Box::new(irt4::ir::IRExpr::BinOp {
            kind: irt4::ir::IRBinOpKind::Sub,
            lhs: Box::new(irt4::ir::IRExpr::Argument(1)),
            rhs: Box::new(zero),
        }),
    };
    let mut program = program4(vec![irt4::ir::IRInst::Return(Some(value))]);
    irt4::simplify_binary_operations::run(&mut program);
    let text = format!("{:?}", program.functions[0].body[0].1);
    assert_eq!(text, "Return(Some(Argument(1)))");
}

#[test]
fn declarations_stand_in_the_block_of_their_uses() {
    let inner = vec![
        assign4(0, irt4::ir::IRExpr::Argument(1)),
        irt4::ir::IRInst::Return(Some(irt4::ir::IRExpr::Variable(slot4(0)))),
    ];
    let mut program = program4(vec![
        local4(0),
        irt4::ir::IRInst::If {
            condition: irt4::ir::IRExpr::Bool(true),
            then_branch: inner,
            else_branch: Vec::new(),
        },
        irt4::ir::IRInst::End,
    ]);
    irt4::place_declarations::run(&mut program);
    assert_eq!(program.functions[0].body.len(), 2);
    let text = format!("{:?}", program.functions[0].body[0].1);
    assert!(text.contains("DeclareAndAssignVariable"));
}

#[test]
fn variables_are_numbered_densely() {
    let owner = irt4::ir::SyntheticFunctionId { id: 0 };
    let far = irt4::ir::VariableId { owner, id: 7 };
    let near = irt4::ir::VariableId { owner, id: 3 };
    let load = |variable: irt4::ir::VariableId| irt4::ir::IRInst::LoadVariable {
        variable,
        address: irt4::ir::IRExpr::Argument(1),
    };
    let program = program4(vec![load(far), load(near), load(far)]);
    let lifted = irt5::lift(&program);
    let numbers: Vec<usize> = lifted.functions[0]
        .body
        .iter()
        .filter_map(|item| match &item.1 {
            irt5::ir::IRInst::LoadVariable { variable, .. } => Some(variable.id),
            _ => None,
        })
        .collect();
    assert_eq!(numbers, vec![0, 1, 0]);
}

#[test]
fn an_expression_minus_itself_is_zero_unless_it_reads_memory() {
    let context = bytes_context();
    let twice = |e: &IRExpr| op(IRBinOpKind::Sub, e.clone(), e.clone());
    let zero = context.value(&IRExpr::CU8(0));
    for e in [
        var(0),
        IRExpr::CU8(7),
        op(IRBinOpKind::Add, var(0), op(IRBinOpKind::Mul, var(1), IRExpr::CU8(255))),
        op(IRBinOpKind::BitOr, var(0), var(1)),
    ] {
        assert!(context.value(&twice(&e)).same(&zero));
    }
    let read = IRExpr::Deref(Box::new(IRExpr::MemoryAddress {
        address: Box::new(var(0)),
        size: Some(1),
    }));
    assert!(!context.value(&twice(&read)).same(&zero));
    assert!(context.value(&twice(&read)).same(&context.value(&twice(&read))));
}

#[test]
fn joined_variables_are_stood_for_by_one() {
    let owner = irt3::ir::SyntheticFunctionId { id: 0 };
    let v3 = |id: usize| irt3::ir::VariableId { owner, id };
    let mut aliases = Vec::new();
    add_alias(v3(0), v3(1), &mut aliases);
    add_alias(v3(2), v3(3), &mut aliases);
    add_alias(v3(0), v3(2), &mut aliases);
    assert_eq!(aliases, vec![(v3(0), v3(1)), (v3(2), v3(3)), (v3(1), v3(3))]);
    for id in 0..4 {
        assert_eq!(canonical_variable(v3(id), &aliases), v3(3));
    }
    // Nothing is added where one variable stands for both already.
    add_alias(v3(3), v3(0), &mut aliases);
    assert_eq!(aliases.len(), 3);
    assert_eq!(canonical_variable(v3(4), &aliases), v3(4));
}

#[test]
fn an_operation_starts_one_function() {
    let to = |target: u64| irt0::ir::IRInst::Jmp(irt0::ir::IRExpr::CU64(target));
    let zero = irt0::ir::IRExpr::Flag(irt0::ir::NativeFlag::Zero);
    let source = vec![
        (0x10, irt0::ir::IRInst::If(zero, Box::new(to(0x30)))),
        (0x20, to(0x30)),
        (0x30, irt0::ir::IRInst::Ret(None)),
    ];
    let functions = partition(&source, 8);
    let entries: Vec<usize> = functions.iter().map(|f| f.entry_offset).collect();
    assert_eq!(entries, vec![8, 0x30, 0x20]);
    let called = |instr: &irt1::ir::IRInst| match instr {
        irt1::ir::IRInst::CallSynthetic { function, .. } => function.id,
        _ => panic!("no call"),
    };
    match &functions[0].body[0].1 {
        irt1::ir::IRInst::If { then_branch, else_branch, .. } => {
            assert_eq!(called(then_branch), 1);
            assert_eq!(called(else_branch), 2);
        }
        _ => panic!("no branch"),
    }
    assert_eq!(called(&functions[2].body[0].1), 1);
    let mut builder = SyntheticFunctionBuilder::new(&source, 8);
    assert_eq!(builder.function(2), 0);
    assert_eq!(builder.function(0), 1);
    assert_eq!(builder.function(2), 0);
    assert_eq!(builder.function(0), 1);
    let made: Vec<usize> = builder.functions().iter().map(|f| f.entry_offset).collect();
    assert_eq!(made, vec![0x30, 8, 0x20]);
}

#[test]
fn every_change_to_a_graph_is_made() {
    let exit = || node(Transfer::Exit(irt3::ir::IRInst::Return(None)));
    let nodes = vec![fork(1, 2), node(Transfer::Goto(3)), exit(), exit()];
    let (left, entry) = eliminate_branches(nodes, 0);
    assert_eq!((left.len(), entry), (1, 0));
    assert!(matches!(left[0].transfer, Transfer::Exit(_)));
}

fn without_comments(text: &str) -> Vec<String> {
    text.lines()
        .filter(|line| !line.trim().starts_with("//"))
        .map(|line| match line.find(" // 0x") {
            Some(end) => line[..end].to_string(),
            None => line.to_string(),
        })
        .collect()
}

#[test]
fn address_comments_add_lines_and_change_none() {
    let declared = IRInst::DeclareVariable { variable: v(0), ty: VariableType::Bool };
    let inner = IRInst::If {
        condition: var(0),
        then_branch: vec![IRInst::Continue],
        else_branch: vec![IRInst::ContinueLoop(LoopId { id: 1 })],
    };
    let before = IRInst::While {
        label: Some(LoopId { id: 1 }),
        entry_offset: 0x20,
        condition: LoopCondition::Before { offset: 0x24, expression: var(0) },
        body: vec![(0x28, inner), (0x2c, IRInst::Break)],
    };
    let after = IRInst::While {
        label: None,
        entry_offset: 0x30,
        condition: LoopCondition::After { offset: 0x38, expression: var(0) },
        body: vec![(0x34, IRInst::Break)],
    };
    let each = IRInst::ForEach {
        entry_offset: 0x40,
        condition_offset: 0x44,
        advance_offset: 0x48,
        load_offset: 0x4c,
        variable: v(1),
        element_type: VariableType::UnsignedInteger(8),
        vector: var(0),
        start: 2,
        index_bits: 32,
        body: vec![(0x50, IRInst::Return(Some(var(1))))],
    };
    let mut program = program6(vec![Vec::new()]);
    program.functions[0].body =
        vec![(0x10, declared), (0x20, before), (0x30, after), (0x40, each), (0x60, IRInst::End)];
    let noted = render::render(&program, true);
    let bare = render::render(&program, false);
    let comments = |text: &str| text.lines().filter(|l| l.trim().starts_with("//")).count();
    assert_eq!(without_comments(&noted), without_comments(&bare));
    assert_eq!(comments(&bare), 1);
    assert_eq!(comments(&noted), 15);
    assert!(noted.contains("        // 0x28\n        if (v0) {\n"));
    assert!(noted.contains("    // u32 index wraps; advance 0x48, load 0x4c\n"));
}
