use brainfucker::codegen::compile_module;
use brainfucker::interpreter::{execute, Execution, Halt, PointerSlot, TapeSlot};
use brainfucker::ir::{Instr, IntTy, Operand};

const FUEL: u64 = 10_000_000;
const TAPE_LIMIT: usize = 1 << 20;

/// Compiles `text` with a tape of `heap_size` bytes and runs it on `input`.
fn run(text: &str, heap_size: u64, input: &[u8]) -> Execution {
    let program = compile_module("test", heap_size, text).unwrap();
    execute(&program.blocks, input, TAPE_LIMIT, FUEL)
}

/// Runs `text` on the default tape; the program must return 0 and release its tape.
fn exits(text: &str, input: &[u8]) -> Execution {
    let execution = run(text, 30000, input);
    assert_eq!(execution.halt, Halt::Exited { status: 0 });
    assert_eq!(execution.machine.tape, TapeSlot::Released);
    execution
}

fn output(text: &str, input: &[u8]) -> Vec<u8> {
    exits(text, input).machine.output
}

#[test]
fn the_empty_program_allocates_releases_and_returns_zero() {
    let execution = exits("", b"");
    assert_eq!(execution.machine.pointer, PointerSlot::Holding(0));
    assert_eq!(execution.machine.output, b"");
    assert_eq!(execution.machine.read, 0);
    let program = compile_module("test", 30000, "no commands here").unwrap();
    assert_eq!(execute(&program.blocks, b"", TAPE_LIMIT, 5).halt, Halt::Exited { status: 0 });
    assert_eq!(execute(&program.blocks, b"", TAPE_LIMIT, 4).halt, Halt::OutOfFuel);
}

#[test]
fn hello_world() {
    let text = "++++++++[>++++[>++>+++>+++>+<<<<-]>+>+>->>+[<]<-]>>.>---.+++++++..+++.\
                >>.<-.<.+++.------.--------.>>+.>++.";
    assert_eq!(output(text, b""), b"Hello World!\n");
}

#[test]
fn hello_world_up_to_its_fifth_letter() {
    let text = "++++++++[>++++[>++>+++>+++>+<<<<-]>+>+>->>+[<]<-]>>.>---.+++++++..+++.";
    assert_eq!(output(text, b""), b"Hello");
}

#[test]
fn input_is_echoed_unchanged() {
    assert_eq!(output(",.", &[65]), vec![65]);
    for byte in [0u8, 1, 10, 127, 128, 254, 255] {
        assert_eq!(output(",.", &[byte]), vec![byte]);
    }
    assert_eq!(output(",.,.,.", b"abc"), b"abc");
    assert_eq!(exits(",.", &[65, 66]).machine.read, 1);
}

#[test]
fn end_of_input_reads_as_all_ones() {
    assert_eq!(output(",.", b""), vec![255]);
    assert_eq!(output("+,.", b""), vec![255]);
    assert_eq!(output(",.,.", b"x"), vec![b'x', 255]);
}

#[test]
fn increment_then_decrement_is_a_no_op_for_every_cell_value() {
    for start in 0..=255usize {
        let set = "+".repeat(start);
        assert_eq!(output(&format!("{}.", set), b""), vec![start as u8]);
        assert_eq!(output(&format!("{}+-.", set), b""), vec![start as u8]);
        assert_eq!(output(&format!("{}-+.", set), b""), vec![start as u8]);
    }
}

#[test]
fn cells_wrap_at_the_boundaries() {
    assert_eq!(output("-.", b""), vec![255]);
    assert_eq!(output(&format!("{}.", "+".repeat(255)), b""), vec![255]);
    assert_eq!(output(&format!("{}.", "+".repeat(256)), b""), vec![0]);
    assert_eq!(output(&format!("{}.", "+".repeat(257)), b""), vec![1]);
    assert_eq!(output("--.", b""), vec![254]);
}

#[test]
fn right_then_left_returns_to_the_same_cell() {
    for k in [0usize, 1, 2, 17, 100] {
        let text = format!("+++{}{}.", ">".repeat(k), "<".repeat(k));
        let execution = run(&text, 101, b"");
        assert_eq!(execution.halt, Halt::Exited { status: 0 });
        assert_eq!(execution.machine.output, vec![3]);
        assert_eq!(execution.machine.pointer, PointerSlot::Holding(0));
    }
    let execution = run(&format!(">>{}++{}", ">".repeat(3), "<".repeat(3)), 6, b"");
    assert_eq!(execution.halt, Halt::Exited { status: 0 });
    assert_eq!(execution.machine.pointer, PointerSlot::Holding(2));
}

#[test]
fn left_then_right_wraps_through_the_register() {
    let execution = exits("<>+.", b"");
    assert_eq!(execution.machine.pointer, PointerSlot::Holding(0));
    assert_eq!(execution.machine.output, vec![1]);
    assert_eq!(exits("<<<>>>", b"").machine.pointer, PointerSlot::Holding(0));
    assert_eq!(exits("<", b"").machine.pointer, PointerSlot::Holding(0xFFFF_FFFF));
    assert_eq!(exits(">>>", b"").machine.pointer, PointerSlot::Holding(3));
}

#[test]
fn an_empty_loop_on_a_zero_cell_changes_nothing() {
    let plain = exits("+>.<.", b"");
    let looped = exits("+>[].<.", b"");
    assert_eq!(looped.machine, plain.machine);
    let commented = exits("+>[ nothing to do ].<.", b"");
    assert_eq!(commented.machine, plain.machine);
    assert_eq!(output("[]", b""), b"");
}

#[test]
fn the_cell_is_tested_after_the_body() {
    // From zero, the body runs once before the first test.
    assert_eq!(output("[.]", b""), vec![0]);
    assert_eq!(output("[>+.<]", b""), vec![1]);
    // `[+]` from zero counts all the way round to zero again.
    assert_eq!(output("[+].", b""), vec![0]);
    let counted = output("[.+]", b"");
    assert_eq!(counted, (0..=255).collect::<Vec<u8>>());
}

#[test]
fn a_loop_runs_until_its_cell_is_zero() {
    assert_eq!(output("+++[.-]", b""), vec![3, 2, 1]);
    assert_eq!(output("++[>+++<-]>.", b""), vec![6]);
    assert_eq!(output("++[>++[>++<-]<-]>>.", b""), vec![8]);
}

#[test]
fn a_cell_off_the_tape_is_undefined() {
    assert_eq!(run(">>+", 2, b"").halt, Halt::Stuck);
    assert_eq!(run("<.", 2, b"").halt, Halt::Stuck);
    assert_eq!(run("+", 0, b"").halt, Halt::Stuck);
    assert_eq!(run(">+.", 2, b"").halt, Halt::Exited { status: 0 });
    assert_eq!(run(">>", 2, b"").halt, Halt::Exited { status: 0 });
}

#[test]
fn the_tape_starts_zeroed_and_has_the_size_asked_for() {
    assert_eq!(output(".>.>.>.>.", b""), vec![0, 0, 0, 0, 0]);
    let program = compile_module("test", 5, "").unwrap();
    let started = execute(&program.blocks, b"", TAPE_LIMIT, 3);
    assert_eq!(started.halt, Halt::OutOfFuel);
    assert_eq!(started.machine.tape, TapeSlot::Live(vec![0; 5]));
    assert_eq!(started.machine.pointer, PointerSlot::Holding(0));
}

#[test]
fn a_tape_over_the_limit_is_not_allocated() {
    let program = compile_module("test", 30000, "+.").unwrap();
    let execution = execute(&program.blocks, b"", 29999, FUEL);
    assert_eq!(execution.halt, Halt::TapeTooLarge);
    assert_eq!(execution.machine.tape, TapeSlot::Unallocated);
    assert_eq!(execute(&program.blocks, b"", 30000, FUEL).halt, Halt::Exited { status: 0 });
    let huge = compile_module("test", u64::MAX, "").unwrap();
    assert_eq!(execute(&huge.blocks, b"", TAPE_LIMIT, FUEL).halt, Halt::TapeTooLarge);
}

#[test]
fn an_endless_loop_runs_out_of_fuel() {
    let program = compile_module("test", 8, "+[]").unwrap();
    let execution = execute(&program.blocks, b"", TAPE_LIMIT, 1000);
    assert_eq!(execution.halt, Halt::OutOfFuel);
    assert_eq!(execution.machine.tape, TapeSlot::Live(vec![1, 0, 0, 0, 0, 0, 0, 0]));
}

#[test]
fn the_interpreter_follows_jumps_and_branches() {
    let blocks = vec![
        vec![Instr::Jump { target: 2 }],
        vec![Instr::Return { value: Operand::Const(IntTy::I32, 7) }],
        vec![
            Instr::CompareNe {
                ty: IntTy::I8,
                lhs: Operand::Const(IntTy::I8, 1),
                rhs: Operand::Const(IntTy::I8, 1),
            },
            Instr::Branch { condition: Operand::Back(1), if_true: 0, if_false: 1 },
        ],
    ];
    assert_eq!(execute(&blocks, b"", TAPE_LIMIT, 100).halt, Halt::Exited { status: 7 });
}

#[test]
fn malformed_programs_get_stuck() {
    let no_terminator = vec![vec![Instr::ReservePointer]];
    assert_eq!(execute(&no_terminator, b"", TAPE_LIMIT, 100).halt, Halt::Stuck);
    let no_such_block = vec![vec![Instr::Jump { target: 1 }]];
    assert_eq!(execute(&no_such_block, b"", TAPE_LIMIT, 100).halt, Halt::Stuck);
    let no_such_value = vec![vec![Instr::Return { value: Operand::Back(1) }]];
    assert_eq!(execute(&no_such_value, b"", TAPE_LIMIT, 100).halt, Halt::Stuck);
    let unreserved = vec![vec![Instr::LoadPointer]];
    assert_eq!(execute(&unreserved, b"", TAPE_LIMIT, 100).halt, Halt::Stuck);
    let released_twice = vec![vec![
        Instr::AllocateTape {
            count: Operand::Const(IntTy::Size, 1),
            size: Operand::Const(IntTy::Size, 1),
        },
        Instr::ReleaseTape,
        Instr::ReleaseTape,
    ]];
    assert_eq!(execute(&released_twice, b"", TAPE_LIMIT, 100).halt, Halt::Stuck);
    assert_eq!(execute(&Vec::new(), b"", TAPE_LIMIT, 100).halt, Halt::Stuck);
}

#[test]
fn arithmetic_wraps_at_the_width_of_its_type() {
    let sum = |ty: IntTy, a: u64, b: u64| {
        let blocks = vec![vec![
            Instr::Add { ty, lhs: Operand::Const(ty, a), rhs: Operand::Const(ty, b) },
            Instr::Return { value: Operand::Back(1) },
        ]];
        execute(&blocks, b"", TAPE_LIMIT, 10).halt
    };
    assert_eq!(sum(IntTy::I8, 255, 1), Halt::Exited { status: 0 });
    assert_eq!(sum(IntTy::I8, 200, 100), Halt::Exited { status: 44 });
    assert_eq!(sum(IntTy::I32, 0xFFFF_FFFF, 2), Halt::Exited { status: 1 });
    assert_eq!(sum(IntTy::I1, 1, 1), Halt::Exited { status: 0 });
    let difference = vec![vec![
        Instr::Sub {
            ty: IntTy::I32,
            lhs: Operand::Const(IntTy::I32, 0),
            rhs: Operand::Const(IntTy::I32, 1),
        },
        Instr::Return { value: Operand::Back(1) },
    ]];
    assert_eq!(
        execute(&difference, b"", TAPE_LIMIT, 10).halt,
        Halt::Exited { status: 0xFFFF_FFFF }
    );
}
