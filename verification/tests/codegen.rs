use brainfucker::codegen::{compile_module, Codegen};
use brainfucker::config::{opt_level, OptLevel, DEFAULT_HEAP_SIZE, DEFAULT_OPT_LEVEL};
use brainfucker::ir::{well_formed, Instr, IntTy, Operand};
use brainfucker::program::{entry_symbol, ExternalFns, Ty};
use brainfucker::source::CodegenError;

fn startup(heap_size: u64) -> Vec<Instr> {
    vec![
        Instr::ReservePointer,
        Instr::StorePointer { value: Operand::Const(IntTy::I32, 0) },
        Instr::AllocateTape {
            count: Operand::Const(IntTy::Size, heap_size),
            size: Operand::Const(IntTy::Size, 1),
        },
    ]
}

fn exit() -> Vec<Instr> {
    vec![Instr::ReleaseTape, Instr::Return { value: Operand::Const(IntTy::I32, 0) }]
}

fn cell_address() -> Vec<Instr> {
    vec![Instr::LoadPointer, Instr::CellAddress { index: Operand::Back(1) }]
}

fn loop_test(entry: usize, after: usize) -> Vec<Instr> {
    let mut code = cell_address();
    code.push(Instr::LoadCell { address: Operand::Back(1) });
    code.push(Instr::CompareNe {
        ty: IntTy::I8,
        lhs: Operand::Back(1),
        rhs: Operand::Const(IntTy::I8, 0),
    });
    code.push(Instr::Branch { condition: Operand::Back(1), if_true: entry, if_false: after });
    code
}

/// The single block of a program without loops, less the startup and exit sequences.
fn middle(code: &str) -> Vec<Instr> {
    let program = compile_module("m", 16, code).unwrap();
    assert_eq!(program.blocks.len(), 1);
    let block = &program.blocks[0];
    assert_eq!(block[..3], startup(16)[..]);
    assert_eq!(block[block.len() - 2..], exit()[..]);
    block[3..block.len() - 2].to_vec()
}

#[test]
fn empty_text_gives_allocate_release_return() {
    let program = compile_module("empty", 30000, "").unwrap();
    assert_eq!(program.name, "empty");
    let mut expected = startup(30000);
    expected.extend(exit());
    assert_eq!(program.blocks, vec![expected]);
}

#[test]
fn text_without_commands_is_the_empty_program() {
    let program = compile_module("c", 7, "abc xyz 0123 \n\t!?*/#{}()=_\u{e9}\u{4e16}").unwrap();
    let mut expected = startup(7);
    expected.extend(exit());
    assert_eq!(program.blocks, vec![expected]);
}

#[test]
fn move_right_is_load_add_store() {
    assert_eq!(
        middle(">"),
        vec![
            Instr::LoadPointer,
            Instr::Add {
                ty: IntTy::I32,
                lhs: Operand::Back(1),
                rhs: Operand::Const(IntTy::I32, 1)
            },
            Instr::StorePointer { value: Operand::Back(1) },
        ]
    );
}

#[test]
fn move_left_is_load_sub_store() {
    assert_eq!(
        middle("<"),
        vec![
            Instr::LoadPointer,
            Instr::Sub {
                ty: IntTy::I32,
                lhs: Operand::Back(1),
                rhs: Operand::Const(IntTy::I32, 1)
            },
            Instr::StorePointer { value: Operand::Back(1) },
        ]
    );
}

#[test]
fn increment_is_load_add_store_on_the_cell() {
    let mut expected = cell_address();
    expected.push(Instr::LoadCell { address: Operand::Back(1) });
    expected.push(Instr::Add {
        ty: IntTy::I8,
        lhs: Operand::Back(1),
        rhs: Operand::Const(IntTy::I8, 1),
    });
    expected.push(Instr::StoreCell { address: Operand::Back(3), value: Operand::Back(1) });
    assert_eq!(middle("+"), expected);
}

#[test]
fn decrement_is_load_sub_store_on_the_cell() {
    let mut expected = cell_address();
    expected.push(Instr::LoadCell { address: Operand::Back(1) });
    expected.push(Instr::Sub {
        ty: IntTy::I8,
        lhs: Operand::Back(1),
        rhs: Operand::Const(IntTy::I8, 1),
    });
    expected.push(Instr::StoreCell { address: Operand::Back(3), value: Operand::Back(1) });
    assert_eq!(middle("-"), expected);
}

#[test]
fn output_widens_the_cell_and_calls_putchar() {
    let mut expected = cell_address();
    expected.push(Instr::LoadCell { address: Operand::Back(1) });
    expected.push(Instr::ZeroExtend { value: Operand::Back(1) });
    expected.push(Instr::WriteChar { value: Operand::Back(1) });
    assert_eq!(middle("."), expected);
}

#[test]
fn input_calls_getchar_and_narrows_into_the_cell() {
    let mut expected = cell_address();
    expected.push(Instr::ReadChar);
    expected.push(Instr::Truncate { value: Operand::Back(1) });
    expected.push(Instr::StoreCell { address: Operand::Back(3), value: Operand::Back(1) });
    assert_eq!(middle(","), expected);
}

#[test]
fn characters_are_compiled_left_to_right() {
    let mut expected = middle(",");
    expected.extend(middle("+"));
    expected.extend(middle(">"));
    expected.extend(middle("."));
    assert_eq!(middle(", then + and > at last ."), expected);
}

#[test]
fn a_loop_makes_two_new_blocks() {
    let program = compile_module("l", 16, "[-]").unwrap();
    let mut entry = startup(16);
    entry.push(Instr::Jump { target: 1 });
    let mut body = middle("-");
    body.extend(loop_test(1, 2));
    assert_eq!(program.blocks, vec![entry, body, exit()]);
}

#[test]
fn nested_loops_close_innermost_first() {
    let program = compile_module("n", 16, "[[]+[]]").unwrap();
    let mut entry = startup(16);
    entry.push(Instr::Jump { target: 1 });
    let outer = vec![Instr::Jump { target: 2 }];
    let first_inner = loop_test(2, 3);
    let mut between = middle("+");
    between.push(Instr::Jump { target: 4 });
    let second_inner = loop_test(4, 5);
    let after_second = loop_test(1, 6);
    assert_eq!(
        program.blocks,
        vec![entry, outer, first_inner, between, second_inner, after_second, exit()]
    );
}

#[test]
fn every_program_handed_out_is_well_formed() {
    for text in ["", "+", "[]", "+[>[-]<[->+<]]>.", ",[.,]", "[[[[]]]]", "a[b]c"] {
        let program = compile_module("t", 16, text).unwrap();
        assert!(well_formed(&program.blocks), "{}", text);
    }
}

#[test]
fn a_program_cut_short_is_not_well_formed() {
    let mut codegen = Codegen::new();
    assert_eq!(codegen.generate(16, "[+"), Err(CodegenError::UnclosedLoop { open: 1 }));
    assert!(!well_formed(&codegen.finish()));
    assert!(!well_formed(&Vec::new()));
    assert!(!well_formed(&vec![Vec::new()]));
}

#[test]
fn well_formed_wants_terminators_targets_and_types() {
    let ret = Instr::Return { value: Operand::Const(IntTy::I32, 0) };
    assert!(well_formed(&vec![vec![ret]]));
    // no terminator
    assert!(!well_formed(&vec![vec![Instr::LoadPointer]]));
    // a terminator before the end
    assert!(!well_formed(&vec![vec![ret, ret]]));
    // a jump to a block that is not there
    assert!(!well_formed(&vec![vec![Instr::Jump { target: 1 }]]));
    assert!(well_formed(&vec![vec![Instr::Jump { target: 1 }], vec![ret]]));
    // an operand that reaches before the block
    assert!(!well_formed(&vec![vec![Instr::Return { value: Operand::Back(1) }]]));
    // an operand of the wrong type
    assert!(!well_formed(&vec![vec![
        Instr::LoadPointer,
        Instr::LoadCell { address: Operand::Back(1) },
        ret
    ]]));
    assert!(well_formed(&vec![vec![
        Instr::LoadPointer,
        Instr::CellAddress { index: Operand::Back(1) },
        Instr::LoadCell { address: Operand::Back(1) },
        Instr::ZeroExtend { value: Operand::Back(1) },
        Instr::Return { value: Operand::Back(1) },
    ]]));
    // an operand that names an instruction without a result
    assert!(!well_formed(&vec![vec![
        Instr::ReleaseTape,
        Instr::Return { value: Operand::Back(1) }
    ]]));
    // a constant that does not fit its width
    assert!(!well_formed(&vec![vec![Instr::Return {
        value: Operand::Const(IntTy::I32, 0x1_0000_0000)
    }]]));
    assert!(!well_formed(&vec![vec![Instr::Return { value: Operand::Const(IntTy::I8, 0) }]]));
}

#[test]
fn one_release_and_one_return_at_the_very_end() {
    let program = compile_module("r", 16, "+[>+<-]>.").unwrap();
    let all: Vec<Instr> = program.blocks.iter().flatten().copied().collect();
    assert_eq!(all.iter().filter(|i| matches!(i, Instr::ReleaseTape)).count(), 1);
    assert_eq!(all.iter().filter(|i| matches!(i, Instr::Return { .. })).count(), 1);
    assert_eq!(all.iter().filter(|i| matches!(i, Instr::AllocateTape { .. })).count(), 1);
    assert_eq!(all[all.len() - 2..], exit()[..]);
}

#[test]
fn an_extra_loop_exit_is_reported_with_its_index() {
    assert_eq!(
        compile_module("e", 16, "+]").unwrap_err(),
        CodegenError::UnmatchedLoopExit { position: 1 }
    );
    assert_eq!(
        compile_module("e", 16, "[]][").unwrap_err(),
        CodegenError::UnmatchedLoopExit { position: 2 }
    );
    assert_eq!(
        compile_module("e", 16, "]").unwrap_err(),
        CodegenError::UnmatchedLoopExit { position: 0 }
    );
}

#[test]
fn the_index_of_a_fault_counts_characters_not_bytes() {
    assert_eq!(
        compile_module("e", 16, "\u{4e16}\u{754c}]").unwrap_err(),
        CodegenError::UnmatchedLoopExit { position: 2 }
    );
}

#[test]
fn loops_left_open_are_counted() {
    assert_eq!(compile_module("o", 16, "[").unwrap_err(), CodegenError::UnclosedLoop { open: 1 });
    assert_eq!(
        compile_module("o", 16, "[[+]-[").unwrap_err(),
        CodegenError::UnclosedLoop { open: 2 }
    );
}

#[test]
fn the_first_fault_wins() {
    assert_eq!(
        compile_module("f", 16, "[[]]][[").unwrap_err(),
        CodegenError::UnmatchedLoopExit { position: 4 }
    );
}

#[test]
fn faults_have_messages() {
    assert_eq!(
        CodegenError::UnmatchedLoopExit { position: 3 }.message(),
        "unmatched bracket: `]` without a `[` before it"
    );
    assert_eq!(
        CodegenError::UnclosedLoop { open: 1 }.message(),
        "unmatched bracket: `[` without a `]` after it"
    );
}

#[test]
fn compiling_twice_gives_the_same_program() {
    let text = "++[>+[-]<-],.>>[[-]<]";
    let first = compile_module("same", 30000, text).unwrap();
    let second = compile_module("same", 30000, text).unwrap();
    assert_eq!(first.name, second.name);
    assert_eq!(first.blocks, second.blocks);
    assert_eq!(format!("{:?}", first), format!("{:?}", second));
    assert_eq!(
        compile_module("same", 30000, "+]").unwrap_err(),
        compile_module("same", 30000, "+]").unwrap_err()
    );
}

#[test]
fn the_tape_size_is_the_allocation_count() {
    let program = compile_module("h", DEFAULT_HEAP_SIZE, "").unwrap();
    assert_eq!(
        program.blocks[0][2],
        Instr::AllocateTape {
            count: Operand::Const(IntTy::Size, 30000),
            size: Operand::Const(IntTy::Size, 1),
        }
    );
    let huge = compile_module("h", u64::MAX, "").unwrap();
    assert_eq!(
        huge.blocks[0][2],
        Instr::AllocateTape {
            count: Operand::Const(IntTy::Size, u64::MAX),
            size: Operand::Const(IntTy::Size, 1),
        }
    );
}

#[test]
fn the_code_generator_can_be_driven_by_hand() {
    let mut codegen = Codegen::new();
    assert_eq!(codegen.open_loops(), 0);
    codegen.gen_startup(16);
    codegen.gen_increment_cell();
    codegen.gen_loop_entry();
    assert_eq!(codegen.open_loops(), 1);
    codegen.gen_move_right();
    codegen.gen_input();
    codegen.gen_output();
    codegen.gen_move_left();
    codegen.gen_decrement_cell();
    codegen.gen_loop_end();
    assert_eq!(codegen.open_loops(), 0);
    codegen.gen_exit();
    let by_hand = codegen.finish();
    let program = compile_module("d", 16, "+[>,.<-]").unwrap();
    assert_eq!(by_hand, program.blocks);
}

#[test]
fn generate_leaves_no_loop_open_on_balanced_text() {
    let mut codegen = Codegen::new();
    assert_eq!(codegen.generate(16, "[[][]]"), Ok(()));
    assert_eq!(codegen.open_loops(), 0);
    assert_eq!(codegen.finish().len(), 7);
}

#[test]
fn generate_stops_before_an_unmatched_loop_exit() {
    let mut codegen = Codegen::new();
    assert_eq!(
        codegen.generate(16, "+]+"),
        Err(CodegenError::UnmatchedLoopExit { position: 1 })
    );
    let mut expected = startup(16);
    expected.extend(middle("+"));
    assert_eq!(codegen.finish(), vec![expected]);
}

#[test]
fn generate_emits_no_exit_while_loops_are_open() {
    let mut codegen = Codegen::new();
    assert_eq!(codegen.generate(16, "[+"), Err(CodegenError::UnclosedLoop { open: 1 }));
    assert_eq!(codegen.open_loops(), 1);
    let mut entry = startup(16);
    entry.push(Instr::Jump { target: 1 });
    assert_eq!(codegen.finish(), vec![entry, middle("+")]);
}

#[test]
fn get_cell_ptr_emits_the_address_of_the_current_cell() {
    let mut codegen = Codegen::new();
    codegen.get_cell_ptr();
    assert_eq!(codegen.finish(), vec![cell_address()]);
}

#[test]
fn blocks_are_labelled_by_what_opened_them() {
    let program = compile_module("b", 16, "[[]+[]]").unwrap();
    let labels: Vec<&str> = (0..program.blocks.len()).map(|i| program.block_label(i)).collect();
    assert_eq!(
        labels,
        vec!["entry", "loop", "loop", "loop_after", "loop", "loop_after", "loop_after"]
    );
    assert_eq!(program.block_label(7), "loop_after");
    assert_eq!(program.block_label(100), "loop_after");
}

#[test]
fn the_external_routines_are_those_of_the_c_library() {
    let fns = ExternalFns::new();
    assert_eq!(fns.putchar.name, "putchar");
    assert_eq!(fns.putchar.params, vec![Ty::Int(IntTy::I32)]);
    assert_eq!(fns.putchar.result, Ty::Int(IntTy::I32));
    assert_eq!(fns.getchar.name, "getchar");
    assert_eq!(fns.getchar.params, vec![]);
    assert_eq!(fns.getchar.result, Ty::Int(IntTy::I32));
    assert_eq!(fns.calloc.name, "calloc");
    assert_eq!(fns.calloc.params, vec![Ty::Int(IntTy::Size), Ty::Int(IntTy::Size)]);
    assert_eq!(fns.calloc.result, Ty::BytePointer);
    assert_eq!(fns.free.name, "free");
    assert_eq!(fns.free.params, vec![Ty::BytePointer]);
    assert_eq!(fns.free.result, Ty::Void);
    let program = compile_module("x", 1, "").unwrap();
    assert_eq!(program.externals.calloc.name, "calloc");
    assert_eq!(entry_symbol(), "main");
}

#[test]
fn optimization_levels_are_zero_to_three() {
    assert_eq!(opt_level(0), Some(OptLevel::O0));
    assert_eq!(opt_level(1), Some(OptLevel::O1));
    assert_eq!(opt_level(2), Some(OptLevel::O2));
    assert_eq!(opt_level(3), Some(OptLevel::O3));
    assert_eq!(opt_level(4), None);
    assert_eq!(opt_level(255), None);
    assert_eq!(opt_level(DEFAULT_OPT_LEVEL), Some(OptLevel::O2));
}
