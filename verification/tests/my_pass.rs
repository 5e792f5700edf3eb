use branch_trace::diagnostics::{Diagnostic, Level};
use branch_trace::ids::BlockIds;
use branch_trace::ir::{
    Block, DebugLocation, DebugScope, Function, Global, Instruction, Module, Opcode, Operand,
    ValueType,
};
use branch_trace::my_pass::{
    attempt_to_insert_branch_printf, conditional_targets, find_block_index, first_conditional,
    follow_branch, insert_printf, instrument_function, prep_block_builder_and_printf_string,
    MyPass, PreservedAnalyses,
};
use branch_trace::inject::InsertionPoint;

fn location(line: u32, path: &str) -> Option<DebugLocation> {
    Some(DebugLocation { line, scope: Some(DebugScope { file: Some(path.to_string()) }) })
}

fn plain(line: u32) -> Instruction {
    Instruction {
        opcode: Opcode::Other,
        operands: vec![Operand::Value],
        location: location(line, "/src/t.c"),
    }
}

fn bare() -> Instruction {
    Instruction { opcode: Opcode::Other, operands: vec![], location: None }
}

fn branch(on_false: u64, on_true: u64, line: u32) -> Instruction {
    Instruction {
        opcode: Opcode::Branch,
        operands: vec![Operand::Value, Operand::Block(on_false), Operand::Block(on_true)],
        location: location(line, "/src/t.c"),
    }
}

fn jump(to: u64, line: u32) -> Instruction {
    Instruction {
        opcode: Opcode::Branch,
        operands: vec![Operand::Block(to)],
        location: location(line, "/src/t.c"),
    }
}

fn function(name: &str, parameters: usize, blocks: Vec<Block>) -> Function {
    Function {
        name: name.to_string(),
        result: ValueType::Other,
        parameters: vec![ValueType::Int32; parameters],
        variadic: false,
        blocks,
    }
}

fn declaration() -> Function {
    Function {
        name: "printf".to_string(),
        result: ValueType::Int32,
        parameters: vec![ValueType::Pointer],
        variadic: true,
        blocks: vec![],
    }
}

fn call(format: usize, name: usize, count: u32, callee: usize) -> Instruction {
    Instruction {
        opcode: Opcode::Call,
        operands: vec![
            Operand::Global(format),
            Operand::Global(name),
            Operand::Int32(count),
            Operand::Function(callee),
        ],
        location: None,
    }
}

fn text(line: &str) -> Global {
    let mut bytes = line.as_bytes().to_vec();
    bytes.push(0);
    Global { bytes, constant: true }
}

/// One function `f` with a block that branches to two others.
fn diamond() -> Module {
    let entry = Block { address: 100, instructions: vec![plain(1), branch(300, 200, 2)] };
    let on_true = Block { address: 200, instructions: vec![plain(5), plain(6)] };
    let on_false = Block { address: 300, instructions: vec![plain(8), plain(9)] };
    Module { functions: vec![function("f", 1, vec![entry, on_true, on_false])], globals: vec![] }
}

#[test]
fn conditional_branch_has_three_operands() {
    assert_eq!(conditional_targets(&branch(3, 4, 1)), Some((3, 4)));
    assert_eq!(conditional_targets(&jump(3, 1)), None);
    assert_eq!(conditional_targets(&plain(1)), None);
    assert_eq!(conditional_targets(&call(0, 1, 2, 3)), None);
}

#[test]
fn conditional_branch_needs_the_branch_opcode() {
    let mut instruction = branch(3, 4, 1);
    instruction.opcode = Opcode::Other;
    assert_eq!(conditional_targets(&instruction), None);
    instruction.opcode = Opcode::Call;
    assert_eq!(conditional_targets(&instruction), None);
}

#[test]
fn conditional_branch_needs_two_blocks() {
    let mut instruction = branch(3, 4, 1);
    instruction.operands[1] = Operand::Value;
    assert_eq!(conditional_targets(&instruction), None);
    let mut instruction = branch(3, 4, 1);
    instruction.operands[2] = Operand::Int32(4);
    assert_eq!(conditional_targets(&instruction), None);
    let mut instruction = branch(3, 4, 1);
    instruction.operands.push(Operand::Value);
    assert_eq!(conditional_targets(&instruction), None);
    let mut instruction = branch(3, 4, 1);
    instruction.operands[0] = Operand::Block(9);
    assert_eq!(conditional_targets(&instruction), Some((3, 4)));
}

#[test]
fn first_conditional_branch_of_a_block_counts() {
    let block = Block { address: 1, instructions: vec![plain(1), jump(9, 2), branch(5, 6, 3), branch(7, 8, 4)] };
    assert_eq!(first_conditional(&block), Some((5, 6)));
    let block = Block { address: 1, instructions: vec![plain(1), jump(9, 2)] };
    assert_eq!(first_conditional(&block), None);
    let block = Block { address: 1, instructions: vec![] };
    assert_eq!(first_conditional(&block), None);
}

#[test]
fn block_is_found_by_its_address() {
    let f = function(
        "f",
        0,
        vec![
            Block { address: 5, instructions: vec![] },
            Block { address: 6, instructions: vec![] },
            Block { address: 6, instructions: vec![plain(1)] },
        ],
    );
    assert_eq!(find_block_index(&f, 5), Some(0));
    assert_eq!(find_block_index(&f, 6), Some(1));
    assert_eq!(find_block_index(&f, 7), None);
    assert_eq!(find_block_index(&function("g", 0, vec![]), 5), None);
}

#[test]
fn line_names_first_and_last_line() {
    let f = function("f", 0, vec![Block { address: 1, instructions: vec![plain(3), bare(), plain(8)] }]);
    let mut log = vec![];
    assert_eq!(
        prep_block_builder_and_printf_string(&f, 0, 4, &mut log),
        Some((InsertionPoint { block: 0, index: 0 }, "t.c {3, 8}: br_4".to_string()))
    );
    assert!(log.is_empty());
}

#[test]
fn line_of_a_single_instruction() {
    let f = function("f", 0, vec![Block { address: 1, instructions: vec![plain(3)] }]);
    let mut log = vec![];
    assert_eq!(
        prep_block_builder_and_printf_string(&f, 0, 0, &mut log),
        Some((InsertionPoint { block: 0, index: 0 }, "t.c {3, 3}: br_0".to_string()))
    );
    assert!(log.is_empty());
}

#[test]
fn line_leaves_the_end_open_without_last_position() {
    let f = function(
        "f",
        0,
        vec![
            Block { address: 1, instructions: vec![] },
            Block { address: 2, instructions: vec![plain(3), plain(4), bare()] },
        ],
    );
    let mut log = vec![Diagnostic::UndefinedFunction { function: 9 }];
    assert_eq!(
        prep_block_builder_and_printf_string(&f, 1, 12, &mut log),
        Some((InsertionPoint { block: 1, index: 0 }, "t.c {3, _}: br_12".to_string()))
    );
    assert_eq!(
        log,
        vec![Diagnostic::UndefinedFunction { function: 9 }, Diagnostic::NoEndLocation { id: 12 }]
    );
}

#[test]
fn line_names_the_first_file_on_mismatch() {
    let mut last = plain(20);
    last.location = location(20, "/other/u.c");
    let f = function("f", 0, vec![Block { address: 1, instructions: vec![plain(3), last] }]);
    let mut log = vec![];
    assert_eq!(
        prep_block_builder_and_printf_string(&f, 0, 2, &mut log),
        Some((InsertionPoint { block: 0, index: 0 }, "t.c {3, 20}: br_2".to_string()))
    );
    assert_eq!(log, vec![Diagnostic::FileMismatch { id: 2 }]);
}

#[test]
fn same_file_name_in_another_directory_is_no_mismatch() {
    let mut last = plain(20);
    last.location = location(20, "/elsewhere/t.c");
    let f = function("f", 0, vec![Block { address: 1, instructions: vec![plain(3), last] }]);
    let mut log = vec![];
    assert_eq!(
        prep_block_builder_and_printf_string(&f, 0, 2, &mut log),
        Some((InsertionPoint { block: 0, index: 0 }, "t.c {3, 20}: br_2".to_string()))
    );
    assert!(log.is_empty());
}

#[test]
fn empty_block_has_no_line() {
    let f = function("f", 0, vec![Block { address: 1, instructions: vec![] }]);
    let mut log = vec![];
    assert_eq!(prep_block_builder_and_printf_string(&f, 0, 7, &mut log), None);
    assert_eq!(log, vec![Diagnostic::EmptyBlock { id: 7 }]);
}

#[test]
fn block_without_first_position_has_no_line() {
    let f = function("f", 0, vec![Block { address: 1, instructions: vec![bare(), plain(4)] }]);
    let mut log = vec![];
    assert_eq!(prep_block_builder_and_printf_string(&f, 0, 7, &mut log), None);
    assert_eq!(log, vec![Diagnostic::NoStartLocation { id: 7 }]);
}

#[test]
fn new_target_is_traced() {
    let mut module = diamond();
    let mut ids = BlockIds::new();
    let mut log = vec![];
    attempt_to_insert_branch_printf(&mut module, 0, 2, &mut ids, &mut log);
    assert_eq!(
        log,
        vec![
            Diagnostic::Discovered { id: 0, address: 300 },
            Diagnostic::Injected { id: 0, function: 0, block: 2 },
        ]
    );
    assert_eq!(ids.lookup(300), Some(0));
    assert_eq!(module.functions[0].blocks[2].instructions, vec![call(0, 1, 1, 1), plain(8), plain(9)]);
    assert_eq!(module.globals, vec![text("t.c {8, 9}: br_0\n"), text("f")]);
    assert_eq!(module.functions[1], declaration());
    assert_eq!(module.functions[0].blocks[0], diamond().functions[0].blocks[0]);
    assert_eq!(module.functions[0].blocks[1], diamond().functions[0].blocks[1]);
}

#[test]
fn known_target_is_left_alone() {
    let mut module = diamond();
    let mut ids = BlockIds::new();
    let mut log = vec![];
    attempt_to_insert_branch_printf(&mut module, 0, 2, &mut ids, &mut log);
    let once = module.clone();
    log.clear();
    attempt_to_insert_branch_printf(&mut module, 0, 2, &mut ids, &mut log);
    assert_eq!(log, vec![Diagnostic::Revisited { id: 0, address: 300 }]);
    assert_eq!(module, once);
    assert_eq!(ids.len(), 1);
}

#[test]
fn empty_block_takes_an_identifier_and_nothing_else() {
    let mut module = Module {
        functions: vec![function(
            "f",
            0,
            vec![
                Block { address: 1, instructions: vec![] },
                Block { address: 2, instructions: vec![plain(4)] },
            ],
        )],
        globals: vec![],
    };
    let before = module.clone();
    let mut ids = BlockIds::new();
    let mut log = vec![];
    attempt_to_insert_branch_printf(&mut module, 0, 0, &mut ids, &mut log);
    assert_eq!(module, before);
    assert_eq!(log, vec![Diagnostic::Discovered { id: 0, address: 1 }, Diagnostic::EmptyBlock { id: 0 }]);
    attempt_to_insert_branch_printf(&mut module, 0, 0, &mut ids, &mut log);
    assert_eq!(module, before);
    assert_eq!(log[2], Diagnostic::Revisited { id: 0, address: 1 });
    attempt_to_insert_branch_printf(&mut module, 0, 1, &mut ids, &mut log);
    assert_eq!(log[3], Diagnostic::Discovered { id: 1, address: 2 });
    assert_eq!(module.globals[0], text("t.c {4, 4}: br_1\n"));
}

#[test]
fn block_without_position_takes_an_identifier_and_nothing_else() {
    let mut module = Module {
        functions: vec![function("f", 0, vec![Block { address: 1, instructions: vec![bare()] }])],
        globals: vec![],
    };
    let before = module.clone();
    let mut ids = BlockIds::new();
    let mut log = vec![];
    attempt_to_insert_branch_printf(&mut module, 0, 0, &mut ids, &mut log);
    assert_eq!(module, before);
    assert_eq!(
        log,
        vec![Diagnostic::Discovered { id: 0, address: 1 }, Diagnostic::NoStartLocation { id: 0 }]
    );
    assert_eq!(ids.lookup(1), Some(0));
}

#[test]
fn branch_to_nowhere_is_reported() {
    let mut module = diamond();
    let mut ids = BlockIds::new();
    let mut log = vec![];
    follow_branch(&mut module, 0, 999, &mut ids, &mut log);
    assert_eq!(log, vec![Diagnostic::MissingBlock { address: 999 }]);
    assert_eq!(module, diamond());
    assert_eq!(ids.len(), 0);
}

#[test]
fn branch_is_followed_to_its_block() {
    let mut module = diamond();
    let mut ids = BlockIds::new();
    let mut log = vec![];
    follow_branch(&mut module, 0, 200, &mut ids, &mut log);
    assert_eq!(
        log,
        vec![
            Diagnostic::Discovered { id: 0, address: 200 },
            Diagnostic::Injected { id: 0, function: 0, block: 1 },
        ]
    );
    assert_eq!(module.functions[0].blocks[1].instructions[0], call(0, 1, 1, 1));
    assert_eq!(module.globals[0], text("t.c {5, 6}: br_0\n"));
}

#[test]
fn false_target_comes_before_true_target() {
    let mut module = diamond();
    let mut ids = BlockIds::new();
    let mut log = vec![];
    insert_printf(&mut module, 0, 0, &mut ids, &mut log);
    assert_eq!(ids.lookup(300), Some(0));
    assert_eq!(ids.lookup(200), Some(1));
    assert_eq!(ids.lookup(100), None);
    assert_eq!(
        log,
        vec![
            Diagnostic::Discovered { id: 0, address: 300 },
            Diagnostic::Injected { id: 0, function: 0, block: 2 },
            Diagnostic::Discovered { id: 1, address: 200 },
            Diagnostic::Injected { id: 1, function: 0, block: 1 },
        ]
    );
}

#[test]
fn block_without_conditional_branch_does_nothing() {
    let mut module = diamond();
    let mut ids = BlockIds::new();
    let mut log = vec![];
    insert_printf(&mut module, 0, 1, &mut ids, &mut log);
    assert_eq!(module, diamond());
    assert!(log.is_empty());
    assert_eq!(ids.len(), 0);
}

#[test]
fn branch_with_both_targets_the_same_traces_once() {
    let mut module = Module {
        functions: vec![function(
            "f",
            0,
            vec![
                Block { address: 1, instructions: vec![branch(2, 2, 1)] },
                Block { address: 2, instructions: vec![plain(2)] },
            ],
        )],
        globals: vec![],
    };
    let mut ids = BlockIds::new();
    let mut log = vec![];
    insert_printf(&mut module, 0, 0, &mut ids, &mut log);
    assert_eq!(module.functions[0].blocks[1].instructions, vec![call(0, 1, 0, 1), plain(2)]);
    assert_eq!(
        log,
        vec![
            Diagnostic::Discovered { id: 0, address: 2 },
            Diagnostic::Injected { id: 0, function: 0, block: 1 },
            Diagnostic::Revisited { id: 0, address: 2 },
        ]
    );
}

#[test]
fn block_that_branches_to_itself_is_traced() {
    let looping = Block { address: 1, instructions: vec![plain(1), branch(2, 1, 2)] };
    let exit = Block { address: 2, instructions: vec![plain(3)] };
    let mut module =
        Module { functions: vec![function("spin", 0, vec![looping, exit])], globals: vec![] };
    let mut log = vec![];
    MyPass.run_pass(&mut module, &mut log);
    assert_eq!(
        module.functions[0].blocks[0].instructions,
        vec![call(2, 3, 0, 1), plain(1), branch(2, 1, 2)]
    );
    assert_eq!(module.functions[0].blocks[1].instructions, vec![call(0, 1, 0, 1), plain(3)]);
    assert_eq!(
        module.globals,
        vec![
            text("t.c {3, 3}: br_0\n"),
            text("spin"),
            text("t.c {1, 2}: br_1\n"),
            text("spin"),
        ]
    );
}

#[test]
fn function_without_blocks_is_left_out() {
    let mut module = Module { functions: vec![function("extern_fn", 2, vec![])], globals: vec![] };
    let before = module.clone();
    let mut ids = BlockIds::new();
    let mut log = vec![];
    instrument_function(&mut module, 0, &mut ids, &mut log);
    assert_eq!(module, before);
    assert_eq!(log, vec![Diagnostic::UndefinedFunction { function: 0 }]);
    assert_eq!(ids.len(), 0);
}

#[test]
fn both_targets_of_a_branch_are_traced() {
    let mut module = diamond();
    let mut log = vec![];
    let preserved = MyPass.run_pass(&mut module, &mut log);
    assert_eq!(preserved, PreservedAnalyses::Nothing);
    assert_eq!(module.functions.len(), 2);
    assert_eq!(module.functions[1], declaration());
    assert_eq!(module.functions[0].name, "f");
    let blocks = &module.functions[0].blocks;
    assert_eq!(blocks[0], diamond().functions[0].blocks[0]);
    assert_eq!(blocks[1].instructions, vec![call(2, 3, 1, 1), plain(5), plain(6)]);
    assert_eq!(blocks[2].instructions, vec![call(0, 1, 1, 1), plain(8), plain(9)]);
    assert_eq!(
        module.globals,
        vec![text("t.c {8, 9}: br_0\n"), text("f"), text("t.c {5, 6}: br_1\n"), text("f")]
    );
    assert_eq!(
        log,
        vec![
            Diagnostic::Discovered { id: 0, address: 300 },
            Diagnostic::Injected { id: 0, function: 0, block: 2 },
            Diagnostic::Discovered { id: 1, address: 200 },
            Diagnostic::Injected { id: 1, function: 0, block: 1 },
            Diagnostic::UndefinedFunction { function: 1 },
        ]
    );
}

#[test]
fn block_reached_by_two_branches_is_traced_once() {
    let first = Block { address: 1, instructions: vec![branch(3, 2, 1)] };
    let second = Block { address: 2, instructions: vec![plain(2), branch(3, 4, 3)] };
    let shared = Block { address: 3, instructions: vec![plain(10), plain(11)] };
    let last = Block { address: 4, instructions: vec![plain(12)] };
    let mut module = Module {
        functions: vec![declaration(), function("f", 0, vec![first, second, shared, last])],
        globals: vec![],
    };
    let mut log = vec![];
    MyPass.run_pass(&mut module, &mut log);
    let blocks = &module.functions[1].blocks;
    assert_eq!(blocks[2].instructions, vec![call(0, 1, 0, 0), plain(10), plain(11)]);
    assert_eq!(
        blocks[2].instructions.iter().filter(|i| i.opcode == Opcode::Call).count(),
        1
    );
    assert_eq!(
        log,
        vec![
            Diagnostic::UndefinedFunction { function: 0 },
            Diagnostic::Discovered { id: 0, address: 3 },
            Diagnostic::Injected { id: 0, function: 1, block: 2 },
            Diagnostic::Discovered { id: 1, address: 2 },
            Diagnostic::Injected { id: 1, function: 1, block: 1 },
            Diagnostic::Revisited { id: 0, address: 3 },
            Diagnostic::Discovered { id: 2, address: 4 },
            Diagnostic::Injected { id: 2, function: 1, block: 3 },
        ]
    );
    assert_eq!(module.functions.len(), 2);
    assert_eq!(
        blocks[1].instructions,
        vec![call(2, 3, 0, 0), plain(2), branch(3, 4, 3)]
    );
}

#[test]
fn identifiers_run_on_across_functions() {
    let f = function(
        "f",
        0,
        vec![
            Block { address: 1, instructions: vec![branch(2, 3, 1)] },
            Block { address: 2, instructions: vec![plain(2)] },
            Block { address: 3, instructions: vec![] },
        ],
    );
    let g = function(
        "g",
        3,
        vec![
            Block { address: 11, instructions: vec![branch(12, 13, 1)] },
            Block { address: 12, instructions: vec![bare()] },
            Block { address: 13, instructions: vec![plain(30), bare()] },
        ],
    );
    let mut module = Module { functions: vec![f, function("h", 0, vec![]), g], globals: vec![] };
    let mut log = vec![];
    MyPass.run_pass(&mut module, &mut log);
    assert_eq!(
        log,
        vec![
            Diagnostic::Discovered { id: 0, address: 2 },
            Diagnostic::Injected { id: 0, function: 0, block: 1 },
            Diagnostic::Discovered { id: 1, address: 3 },
            Diagnostic::EmptyBlock { id: 1 },
            Diagnostic::UndefinedFunction { function: 1 },
            Diagnostic::Discovered { id: 2, address: 12 },
            Diagnostic::NoStartLocation { id: 2 },
            Diagnostic::Discovered { id: 3, address: 13 },
            Diagnostic::NoEndLocation { id: 3 },
            Diagnostic::Injected { id: 3, function: 2, block: 2 },
            Diagnostic::UndefinedFunction { function: 3 },
        ]
    );
    assert_eq!(
        module.globals,
        vec![text("t.c {2, 2}: br_0\n"), text("f"), text("t.c {30, _}: br_3\n"), text("g")]
    );
    assert_eq!(module.functions[2].blocks[2].instructions[0], call(2, 3, 3, 3));
    assert_eq!(module.functions[0].blocks[2].instructions, vec![]);
    assert_eq!(module.functions[2].blocks[1].instructions, vec![bare()]);
    assert_eq!(module.functions[1], function("h", 0, vec![]));
    assert_eq!(module.functions[3], declaration());
}

#[test]
fn function_without_blocks_does_not_shift_identifiers() {
    let body = vec![
        Block { address: 1, instructions: vec![branch(2, 3, 1)] },
        Block { address: 2, instructions: vec![plain(2)] },
        Block { address: 3, instructions: vec![plain(3)] },
    ];
    let mut with = Module {
        functions: vec![function("d", 0, vec![]), function("f", 0, body.clone())],
        globals: vec![],
    };
    let mut without = Module { functions: vec![function("f", 0, body)], globals: vec![] };
    let mut log_with = vec![];
    let mut log_without = vec![];
    MyPass.run_pass(&mut with, &mut log_with);
    MyPass.run_pass(&mut without, &mut log_without);
    assert_eq!(with.globals, without.globals);
    assert_eq!(with.globals[0], text("t.c {2, 2}: br_0\n"));
    assert_eq!(with.globals[2], text("t.c {3, 3}: br_1\n"));
    assert_eq!(with.functions[0], function("d", 0, vec![]));
}

#[test]
fn module_without_branches_is_unchanged() {
    let mut module = Module {
        functions: vec![function(
            "f",
            0,
            vec![
                Block { address: 1, instructions: vec![plain(1), jump(2, 2)] },
                Block { address: 2, instructions: vec![plain(3)] },
            ],
        )],
        globals: vec![Global { bytes: vec![7], constant: false }],
    };
    let before = module.clone();
    let mut log = vec![];
    assert_eq!(MyPass.run_pass(&mut module, &mut log), PreservedAnalyses::Nothing);
    assert_eq!(module, before);
    assert!(log.is_empty());
}

#[test]
fn module_without_functions_is_unchanged() {
    let mut module = Module { functions: vec![], globals: vec![] };
    let mut log = vec![];
    assert_eq!(MyPass.run_pass(&mut module, &mut log), PreservedAnalyses::Nothing);
    assert_eq!(module, Module { functions: vec![], globals: vec![] });
    assert!(log.is_empty());
}

#[test]
fn reports_are_appended_to_what_the_log_holds() {
    let mut module = diamond();
    let mut log = vec![Diagnostic::EmptyBlock { id: 40 }];
    MyPass.run_pass(&mut module, &mut log);
    assert_eq!(log.len(), 6);
    assert_eq!(log[0], Diagnostic::EmptyBlock { id: 40 });
    assert_eq!(log[1], Diagnostic::Discovered { id: 0, address: 300 });
}

#[test]
fn second_pass_starts_counting_anew() {
    let mut module = diamond();
    let mut log = vec![];
    MyPass.run_pass(&mut module, &mut log);
    log.clear();
    MyPass.run_pass(&mut module, &mut log);
    assert_eq!(module.functions.len(), 2);
    assert_eq!(
        log,
        vec![
            Diagnostic::Discovered { id: 0, address: 300 },
            Diagnostic::NoStartLocation { id: 0 },
            Diagnostic::Discovered { id: 1, address: 200 },
            Diagnostic::NoStartLocation { id: 1 },
            Diagnostic::UndefinedFunction { function: 1 },
        ]
    );
    assert_eq!(module.globals.len(), 4);
}

#[test]
fn levels_of_reports() {
    assert_eq!(Diagnostic::Discovered { id: 0, address: 1 }.level(), Level::Info);
    assert_eq!(Diagnostic::Revisited { id: 0, address: 1 }.level(), Level::Info);
    assert_eq!(Diagnostic::Injected { id: 0, function: 0, block: 0 }.level(), Level::Info);
    assert_eq!(Diagnostic::UndefinedFunction { function: 0 }.level(), Level::Warn);
    assert_eq!(Diagnostic::MissingBlock { address: 0 }.level(), Level::Warn);
    assert_eq!(Diagnostic::EmptyBlock { id: 0 }.level(), Level::Warn);
    assert_eq!(Diagnostic::NoStartLocation { id: 0 }.level(), Level::Warn);
    assert_eq!(Diagnostic::NoEndLocation { id: 0 }.level(), Level::Warn);
    assert_eq!(Diagnostic::FileMismatch { id: 0 }.level(), Level::Warn);
}
