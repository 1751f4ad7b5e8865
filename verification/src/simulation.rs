//! The compiled program does what the source text means.
//!
//! Each index of the text has a place in the program: the block that was being
//! filled when the code generator reached that index, and the number of
//! instructions that block then held. Step for step, the program at the place
//! of an index does to the machine what the character at that index means, and
//! arrives at the place of the index that the text goes to next.

use vstd::prelude::*;
use crate::codegen::{
    CodegenView, compiled, exit_code, lemma_scan_shape, loop_end_code, loop_entry_code,
    loop_test_code, primitive_code, startup_code,
};
use crate::ir::Instr;
use crate::machine::{
    Config, Frame, Machine, Outcome, Register, Tape, at_block, code_ahead, initial_config,
    initial_machine, lemma_run_into_undefined, lemma_run_split, lemma_run_through, run, run_code,
    run_prefix, step, step_frame,
};
use crate::meaning::{
    TextOutcome, lemma_comments_pass, lemma_text_run_split, started, text_run, text_step,
};
use crate::source::{
    balanced, depth, first_unmatched_exit, is_primitive, lemma_fault_in_prefix,
    lemma_first_unmatched_exit, lemma_prefix_step, loop_start, open_loops,
};
use crate::effects::{lemma_loop_test, theorem_primitive};

verus! {

/// The code generator's state when it reaches index `at` of `code`.
pub open spec fn state_at(heap_size: u64, code: Seq<char>, at: int) -> CodegenView {
    CodegenView::fresh().emit(startup_code(heap_size)).scan(code.take(at))
}

/// The block in which the instructions of the character at index `at` begin.
pub open spec fn block_of(heap_size: u64, code: Seq<char>, at: int) -> int {
    state_at(heap_size, code, at).blocks.len() - 1
}

/// The place in its block at which the instructions of the character at index
/// `at` begin.
pub open spec fn offset_of(heap_size: u64, code: Seq<char>, at: int) -> int {
    state_at(heap_size, code, at).current().len() as int
}

/// Whether `grown` is `base` grown: the blocks of `base` but its last are
/// unchanged, its last has only gained instructions at its end, and blocks may
/// have been added.
pub open spec fn extends(grown: Seq<Seq<Instr>>, base: Seq<Seq<Instr>>) -> bool {
    &&& 1 <= base.len() <= grown.len()
    &&& forall|b: int| 0 <= b < base.len() - 1 ==> #[trigger] grown[b] == base[b]
    &&& base.last().len() <= grown[base.len() - 1].len()
    &&& forall|i: int|
        0 <= i < base.last().len() ==> #[trigger] grown[base.len() - 1][i] == base.last()[i]
}

proof fn lemma_extends_transitive(a: Seq<Seq<Instr>>, b: Seq<Seq<Instr>>, c: Seq<Seq<Instr>>)
    requires
        extends(a, b),
        extends(b, c),
    ensures
        extends(a, c),
{
    let k = c.len() - 1;
    if c.len() < b.len() {
        assert(a[k] == b[k]);
    }
    assert forall|i: int| 0 <= i < c.last().len() implies #[trigger] a[k][i] == c.last()[i] by {
        assert(b[k][i] == c.last()[i]);
    }
    assert forall|x: int| 0 <= x < c.len() - 1 implies #[trigger] a[x] == c[x] by {
        assert(b[x] == c[x]);
    }
}

proof fn lemma_emit_extends(v: CodegenView, code: Seq<Instr>)
    requires
        v.blocks.len() >= 1,
    ensures
        extends(v.emit(code).blocks, v.blocks),
{
}

proof fn lemma_advance_extends(v: CodegenView, ch: char)
    requires
        v.blocks.len() >= 1,
    ensures
        extends(v.advance(ch).blocks, v.blocks),
        v.advance(ch).blocks.len() >= 1,
{
    let entry = v.blocks.len() as usize;
    if ch == '[' {
        lemma_emit_extends(v, loop_entry_code(entry));
    } else if ch == ']' {
        if v.loops.len() > 0 {
            lemma_emit_extends(v, loop_end_code(v.loops.last(), entry));
        }
    } else {
        lemma_emit_extends(v, primitive_code(ch));
    }
}

/// What the code generator has emitted when it reaches an index stays as it is.
proof fn lemma_scan_extends(v: CodegenView, code: Seq<char>, at: int)
    requires
        v.blocks.len() >= 1,
        0 <= at <= code.len(),
    ensures
        extends(v.scan(code).blocks, v.scan(code.take(at)).blocks),
        v.scan(code).blocks.len() >= 1,
    decreases code.len(),
{
    lemma_scan_shape(v, code);
    lemma_scan_shape(v, code.take(at));
    if at == code.len() {
        assert(code.take(at) =~= code);
    } else {
        let front = code.drop_last();
        lemma_scan_extends(v, front, at);
        assert(front.take(at) =~= code.take(at));
        lemma_advance_extends(v.scan(front), code.last());
        lemma_extends_transitive(
            v.scan(code).blocks,
            v.scan(front).blocks,
            v.scan(code.take(at)).blocks,
        );
    }
}

/// One more character: the code generator's state at the next index.
proof fn lemma_state_step(heap_size: u64, code: Seq<char>, at: int)
    requires
        0 <= at < code.len(),
    ensures
        state_at(heap_size, code, at + 1) == state_at(heap_size, code, at).advance(code[at]),
        state_at(heap_size, code, at).blocks.len() >= 1,
        state_at(heap_size, code, at).blocks.len() <= at + 1,
        first_unmatched_exit(code.take(at)) is None ==> state_at(heap_size, code, at).loops.len()
            == depth(code.take(at)),
{
    lemma_prefix_step(code, at);
    let started = CodegenView::fresh().emit(startup_code(heap_size));
    lemma_scan_shape(started, code.take(at));
}

/// The program of a balanced text holds what the code generator had emitted at
/// each index, and has no block that the code generator had not made by the end.
proof fn lemma_compiled_extends(heap_size: u64, code: Seq<char>, at: int)
    requires
        first_unmatched_exit(code) is None,
        depth(code) == 0,
        0 <= at <= code.len(),
    ensures
        extends(compiled(heap_size, code), state_at(heap_size, code, at).blocks),
        compiled(heap_size, code).len() == state_at(
            heap_size,
            code,
            code.len() as int,
        ).blocks.len(),
        compiled(heap_size, code).last() == state_at(
            heap_size,
            code,
            code.len() as int,
        ).current() + exit_code(),
{
    let started = CodegenView::fresh().emit(startup_code(heap_size));
    assert(code.take(code.len() as int) =~= code);
    lemma_scan_extends(started, code, at);
    lemma_emit_extends(started.scan(code), exit_code());
    lemma_extends_transitive(
        compiled(heap_size, code),
        started.scan(code).blocks,
        state_at(heap_size, code, at).blocks,
    );
}

/// Whether the code generator's stack of open loops, at index `at`, names the
/// blocks that begin just behind the `[` that are open there.
pub open spec fn loops_match(heap_size: u64, code: Seq<char>, at: int) -> bool {
    let open = open_loops(code.take(at));
    let loops = state_at(heap_size, code, at).loops;
    &&& loops.len() == open.len()
    &&& forall|k: int|
        0 <= k < open.len() ==> {
            &&& 0 <= #[trigger] open[k] < at
            &&& code[open[k]] == '['
            &&& loops[k] as int == block_of(heap_size, code, open[k] + 1)
            &&& offset_of(heap_size, code, open[k] + 1) == 0
        }
}

proof fn lemma_loops_match(heap_size: u64, code: Seq<char>, at: int)
    requires
        0 <= at <= code.len(),
        code.len() <= usize::MAX,
        first_unmatched_exit(code.take(at)) is None,
    ensures
        loops_match(heap_size, code, at),
    decreases at,
{
    if at == 0 {
        assert(code.take(0) =~= Seq::<char>::empty());
    } else {
        let p = at - 1;
        lemma_prefix_step(code, p);
        lemma_state_step(heap_size, code, p);
        lemma_loops_match(heap_size, code, p);
        let before = state_at(heap_size, code, p);
        let after = state_at(heap_size, code, at);
        let open_before = open_loops(code.take(p));
        let open = open_loops(code.take(at));
        let ch = code[p];
        if ch == '[' {
            assert(open == open_before.push(p));
            assert(after.loops == before.loops.push(before.blocks.len() as usize));
            assert forall|k: int| 0 <= k < open.len() implies {
                &&& 0 <= #[trigger] open[k] < at
                &&& code[open[k]] == '['
                &&& after.loops[k] as int == block_of(heap_size, code, open[k] + 1)
                &&& offset_of(heap_size, code, open[k] + 1) == 0
            } by {
                if k < open_before.len() {
                    assert(open[k] == open_before[k]);
                    assert(after.loops[k] == before.loops[k]);
                } else {
                    assert(open[k] == p);
                    assert(after.current() =~= Seq::<Instr>::empty());
                }
            }
        } else if ch == ']' {
            lemma_first_unmatched_exit(code.take(at));
            assert(code.take(at).take(at) =~= code.take(at));
            assert(depth(code.take(at)) >= 0);
            assert(before.loops.len() > 0);
            assert(open == open_before.drop_last());
            assert(after.loops == before.loops.drop_last());
            assert forall|k: int| 0 <= k < open.len() implies {
                &&& 0 <= #[trigger] open[k] < at
                &&& code[open[k]] == '['
                &&& after.loops[k] as int == block_of(heap_size, code, open[k] + 1)
                &&& offset_of(heap_size, code, open[k] + 1) == 0
            } by {
                assert(open[k] == open_before[k]);
                assert(after.loops[k] == before.loops[k]);
            }
        } else {
            assert(open == open_before);
            assert(after.loops == before.loops);
            assert forall|k: int| 0 <= k < open.len() implies {
                &&& 0 <= #[trigger] open[k] < at
                &&& code[open[k]] == '['
                &&& after.loops[k] as int == block_of(heap_size, code, open[k] + 1)
                &&& offset_of(heap_size, code, open[k] + 1) == 0
            } by {
                assert(open[k] == open_before[k]);
            }
        }
    }
}

/// The program stopped at the place of index `at`, on machine `m`, with
/// `values` computed in the current block.
pub open spec fn place(
    heap_size: u64,
    code: Seq<char>,
    m: Machine,
    at: int,
    values: Seq<int>,
) -> Config {
    Config {
        machine: m,
        block: block_of(heap_size, code, at),
        at: offset_of(heap_size, code, at),
        values,
    }
}

/// Whether the program's outcome `program` is the text's outcome `text`: both
/// run, on the same machine, and the program stands at the place of the text's
/// index; or both have exited, the program with status 0, leaving the same
/// machine; or the text is undefined and the program is stuck.
pub open spec fn agrees(
    heap_size: u64,
    code: Seq<char>,
    text: TextOutcome,
    program: Outcome,
) -> bool {
    match text {
        TextOutcome::Running { machine, at } => {
            &&& program matches Outcome::Running(c)
            &&& c.machine == machine
            &&& c.block == block_of(heap_size, code, at)
            &&& c.at == offset_of(heap_size, code, at)
        },
        TextOutcome::Exited { machine } => program == (Outcome::Exited { machine, status: 0 }),
        TextOutcome::Undefined => program is Stuck,
    }
}

/// The end of the text: the exit sequence releases the tape and returns 0.
proof fn lemma_step_at_end(heap_size: u64, code: Seq<char>, m: Machine, values: Seq<int>) -> (fuel:
    nat)
    requires
        balanced(code),
    ensures
        agrees(
            heap_size,
            code,
            text_step(code, m, code.len() as int),
            run(
                compiled(heap_size, code),
                place(heap_size, code, m, code.len() as int, values),
                fuel,
            ),
        ),
{
    lemma_first_unmatched_exit(code);
    let at = code.len() as int;
    let program = compiled(heap_size, code);
    let c = place(heap_size, code, m, at, values);
    let here = state_at(heap_size, code, at);
    lemma_compiled_extends(heap_size, code, at);
    lemma_scan_shape(CodegenView::fresh().emit(startup_code(heap_size)), code.take(at));
    assert(program[c.block] == here.current() + exit_code());
    assert(program[c.block][c.at] == exit_code()[0]);
    assert(program[c.block][c.at + 1] == exit_code()[1]);
    if m.tape is Live {
        let released = Machine { tape: Tape::Released, ..m };
        let d = Config { machine: released, block: c.block, at: c.at + 1, values: values.push(0) };
        assert(step(program, c) == Outcome::Running(d));
        assert(step(program, d) == Outcome::Exited { machine: released, status: 0 });
        assert(run(program, c, 2) == run(program, d, 1));
        assert(run(program, d, 1) == step(program, d));
        2
    } else {
        assert(step(program, c) is Stuck);
        assert(run(program, c, 1) == step(program, c));
        1
    }
}

/// `[`: one jump, into the block that begins behind it.
proof fn lemma_step_loop_entry(
    heap_size: u64,
    code: Seq<char>,
    m: Machine,
    at: int,
    values: Seq<int>,
) -> (fuel: nat)
    requires
        balanced(code),
        code.len() <= usize::MAX,
        0 <= at < code.len(),
        code[at] == '[',
    ensures
        agrees(
            heap_size,
            code,
            text_step(code, m, at),
            run(compiled(heap_size, code), place(heap_size, code, m, at, values), fuel),
        ),
{
    lemma_first_unmatched_exit(code);
    let program = compiled(heap_size, code);
    let c = place(heap_size, code, m, at, values);
    let here = state_at(heap_size, code, at);
    lemma_state_step(heap_size, code, at);
    lemma_compiled_extends(heap_size, code, at + 1);
    let next = state_at(heap_size, code, at + 1);
    let target = here.blocks.len() as usize;
    assert(next.blocks[c.block] == here.current() + loop_entry_code(target));
    assert(program[c.block] == next.blocks[c.block]);
    assert(program[c.block][c.at] == loop_entry_code(target)[0]);
    assert(step(program, c) == Outcome::Running(at_block(m, target as int)));
    assert(run(program, c, 1) == match step(program, c) {
        Outcome::Running(d) => run(program, d, 0),
        ended => ended,
    });
    assert(next.current() =~= Seq::<Instr>::empty());
    1
}

/// `]`: the test, then the branch, back into the block behind the matching `[`
/// or on into the block that begins behind the `]`.
proof fn lemma_step_loop_exit(
    heap_size: u64,
    code: Seq<char>,
    m: Machine,
    at: int,
    values: Seq<int>,
) -> (fuel: nat)
    requires
        balanced(code),
        code.len() <= usize::MAX,
        0 <= at < code.len(),
        code[at] == ']',
    ensures
        agrees(
            heap_size,
            code,
            text_step(code, m, at),
            run(compiled(heap_size, code), place(heap_size, code, m, at, values), fuel),
        ),
        0 <= loop_start(code, at) < at,
{
    lemma_first_unmatched_exit(code);
    let program = compiled(heap_size, code);
    let c = place(heap_size, code, m, at, values);
    let here = state_at(heap_size, code, at);
    let f = Frame { machine: m, values };
    lemma_state_step(heap_size, code, at);
    lemma_compiled_extends(heap_size, code, at + 1);
    let next = state_at(heap_size, code, at + 1);
    lemma_prefix_step(code, at);
    assert(depth(code.take(at + 1)) >= 0);
    lemma_fault_free_prefix(code, at);
    assert(here.loops.len() > 0);
    lemma_loops_match(heap_size, code, at);
    let open = open_loops(code.take(at));
    assert(open.last() == open[open.len() - 1]);
    let entry = here.loops.last();
    assert(entry == here.loops[open.len() - 1]);
    let after = here.blocks.len() as usize;
    let whole = loop_end_code(entry, after);
    assert(next.blocks[c.block] == here.current() + whole);
    assert(program[c.block] == next.blocks[c.block]);
    assert(next.current() =~= Seq::<Instr>::empty());
    let test = loop_test_code();
    assert forall|i: int| 0 <= i < test.len() implies program[c.block][c.at + i]
        == #[trigger] test[i] by {
        assert(program[c.block][c.at + i] == whole[i]);
    }
    assert(code_ahead(program, c, test));
    lemma_loop_test(m, values);
    match run_code(f, test) {
        Some(tested) => {
            lemma_run_through(program, c, test);
            let d = Config { machine: m, block: c.block, at: c.at + 4, values: tested.values };
            assert(run(program, c, 4) == Outcome::Running(d));
            assert(program[c.block][c.at + 4] == whole[4]);
            let goal = if m.cell() != 0 {
                entry as int
            } else {
                after as int
            };
            assert(step(program, d) == Outcome::Running(at_block(m, goal)));
            lemma_run_split(program, c, 4, 1);
            assert(run(program, d, 1) == match step(program, d) {
                Outcome::Running(e) => run(program, e, 0),
                ended => ended,
            });
            5
        },
        None => lemma_run_into_undefined(program, c, test),
    }
}

/// A character other than `[` and `]`: its instructions, in the same block.
proof fn lemma_step_primitive(
    heap_size: u64,
    code: Seq<char>,
    m: Machine,
    at: int,
    values: Seq<int>,
) -> (fuel: nat)
    requires
        balanced(code),
        0 <= at < code.len(),
        code[at] != '[',
        code[at] != ']',
        m.wf(),
    ensures
        agrees(
            heap_size,
            code,
            text_step(code, m, at),
            run(compiled(heap_size, code), place(heap_size, code, m, at, values), fuel),
        ),
        text_step(code, m, at) matches TextOutcome::Running { machine, .. } ==> machine.wf(),
{
    lemma_first_unmatched_exit(code);
    let program = compiled(heap_size, code);
    let c = place(heap_size, code, m, at, values);
    let here = state_at(heap_size, code, at);
    let f = Frame { machine: m, values };
    lemma_state_step(heap_size, code, at);
    lemma_compiled_extends(heap_size, code, at + 1);
    let next = state_at(heap_size, code, at + 1);
    let emitted = primitive_code(code[at]);
    assert(next.current() == here.current() + emitted);
    assert forall|i: int| 0 <= i < emitted.len() implies program[c.block][c.at + i]
        == #[trigger] emitted[i] by {
        assert(program[c.block][c.at + i] == next.current()[c.at + i]);
    }
    assert(code_ahead(program, c, emitted));
    theorem_primitive(m, values, code[at]);
    match run_code(f, emitted) {
        Some(after) => {
            lemma_run_through(program, c, emitted);
            emitted.len()
        },
        None => {
            lemma_primitive_code_plain(code[at]);
            lemma_run_into_undefined(program, c, emitted)
        },
    }
}

/// One step of the text, from any index and on any machine, is some steps of
/// the program from the place of that index.
pub proof fn theorem_step(
    heap_size: u64,
    code: Seq<char>,
    m: Machine,
    at: int,
    values: Seq<int>,
) -> (fuel: nat)
    requires
        balanced(code),
        code.len() <= usize::MAX,
        0 <= at <= code.len(),
        m.wf(),
    ensures
        agrees(
            heap_size,
            code,
            text_step(code, m, at),
            run(compiled(heap_size, code), place(heap_size, code, m, at, values), fuel),
        ),
        text_step(code, m, at) matches TextOutcome::Running { machine, at: next } ==> machine.wf()
            && 0 <= next <= code.len(),
{
    if at == code.len() {
        lemma_step_at_end(heap_size, code, m, values)
    } else if code[at] == '[' {
        lemma_step_loop_entry(heap_size, code, m, at, values)
    } else if code[at] == ']' {
        lemma_step_loop_exit(heap_size, code, m, at, values)
    } else {
        lemma_step_primitive(heap_size, code, m, at, values)
    }
}

/// A prefix of a well-nested text is free of faults.
proof fn lemma_fault_free_prefix(code: Seq<char>, at: int)
    requires
        first_unmatched_exit(code) is None,
        0 <= at <= code.len(),
    ensures
        first_unmatched_exit(code.take(at)) is None,
{
    if first_unmatched_exit(code.take(at)) is Some {
        lemma_fault_in_prefix(code, at);
    }
}

/// The instructions of a character other than `[` and `]` hold no terminator.
proof fn lemma_primitive_code_plain(ch: char)
    requires
        ch != '[',
        ch != ']',
    ensures
        forall|i: int|
            0 <= i < primitive_code(ch).len() ==> !(
            #[trigger] primitive_code(ch)[i]).is_terminator(),
{
}

/// Any number of steps of the text, from any index, are some steps of the program.
proof fn lemma_steps(
    heap_size: u64,
    code: Seq<char>,
    m: Machine,
    at: int,
    values: Seq<int>,
    steps: nat,
) -> (fuel: nat)
    requires
        balanced(code),
        code.len() <= usize::MAX,
        0 <= at <= code.len(),
        m.wf(),
    ensures
        agrees(
            heap_size,
            code,
            text_run(code, m, at, steps),
            run(compiled(heap_size, code), place(heap_size, code, m, at, values), fuel),
        ),
    decreases steps,
{
    if steps == 0 {
        0
    } else {
        let program = compiled(heap_size, code);
        let c = place(heap_size, code, m, at, values);
        let first = theorem_step(heap_size, code, m, at, values);
        match text_step(code, m, at) {
            TextOutcome::Running { machine, at: next } => {
                let d = run(program, c, first)->Running_0;
                assert(d == place(heap_size, code, machine, next, d.values));
                let left = (steps - 1) as nat;
                let rest = lemma_steps(heap_size, code, machine, next, d.values, left);
                lemma_run_split(program, c, first, rest);
                first + rest
            },
            _ => first,
        }
    }
}

/// A `]` met with a zero cell ends its loop: the program goes on behind it, on
/// the same machine, and does not go back. And a `[` is passed without a test,
/// whatever the cell holds: the body of a loop runs once before its cell is
/// first tested.
pub proof fn theorem_loop_ends_on_zero(
    heap_size: u64,
    code: Seq<char>,
    m: Machine,
    at: int,
    values: Seq<int>,
) -> (fuel: nat)
    requires
        balanced(code),
        code.len() <= usize::MAX,
        0 <= at < code.len(),
        code[at] == '[' || (code[at] == ']' && m.on_tape() && m.cell() == 0),
        m.wf(),
    ensures
        text_step(code, m, at) == (TextOutcome::Running { machine: m, at: at + 1 }),
        agrees(
            heap_size,
            code,
            TextOutcome::Running { machine: m, at: at + 1 },
            run(compiled(heap_size, code), place(heap_size, code, m, at, values), fuel),
        ),
{
    theorem_step(heap_size, code, m, at, values)
}

/// A loop that holds nothing but comments, met with a zero cell: the text
/// passes it, from its `[` to behind its `]`, in as many steps as it has
/// characters, the program in some steps of its own, and the machine is as it
/// was.
pub proof fn theorem_empty_loop_on_zero(
    heap_size: u64,
    code: Seq<char>,
    m: Machine,
    entry: int,
    exit: int,
    values: Seq<int>,
) -> (fuel: nat)
    requires
        balanced(code),
        code.len() <= usize::MAX,
        0 <= entry < exit < code.len(),
        code[entry] == '[',
        code[exit] == ']',
        forall|i: int| entry < i < exit ==> !is_primitive(code[i]),
        m.wf(),
        m.on_tape(),
        m.cell() == 0,
    ensures
        text_run(code, m, entry, (exit - entry + 1) as nat) == (TextOutcome::Running {
            machine: m,
            at: exit + 1,
        }),
        agrees(
            heap_size,
            code,
            TextOutcome::Running { machine: m, at: exit + 1 },
            run(compiled(heap_size, code), place(heap_size, code, m, entry, values), fuel),
        ),
{
    let inside = (exit - entry - 1) as nat;
    lemma_comments_pass(code, m, entry + 1, exit);
    lemma_text_run_split(code, m, entry + 1, inside, 1);
    assert(text_run(code, m, exit, 1) == (TextOutcome::Running { machine: m, at: exit + 1 })) by {
        reveal_with_fuel(text_run, 2);
    }
    lemma_text_run_split(code, m, entry, 1, inside + 1);
    assert(text_run(code, m, entry, 1) == (TextOutcome::Running { machine: m, at: entry + 1 })) by {
        reveal_with_fuel(text_run, 2);
    }
    lemma_steps(heap_size, code, m, entry, values, (exit - entry + 1) as nat)
}

/// The startup sequence turns the machine at the start of the entry routine
/// into the machine on which the text starts.
proof fn lemma_startup(heap_size: u64, input: Seq<u8>)
    ensures
        run_code(
            Frame { machine: initial_machine(input), values: Seq::empty() },
            startup_code(heap_size),
        ) matches Some(after) && after.machine == started(heap_size, input),
        started(heap_size, input).wf(),
{
    let f = Frame { machine: initial_machine(input), values: Seq::<int>::empty() };
    let code = startup_code(heap_size);
    assert(run_prefix(f, code, 0) == Some(f));
    assert(run_prefix(f, code, 1) == step_frame(f, code[0]));
    let g = run_prefix(f, code, 1)->0;
    assert(run_prefix(f, code, 2) == step_frame(g, code[1]));
    let h = run_prefix(f, code, 2)->0;
    assert(run_prefix(f, code, 3) == step_frame(h, code[2]));
    assert(g.machine == Machine { pointer: Register::Undefined, ..f.machine });
    assert(h.machine == Machine { pointer: Register::Holding(0), ..f.machine });
    let i = run_prefix(f, code, 3)->0;
    assert(i.machine.tape is Live);
    assert(i.machine.cells().len() == heap_size) by {
        assert((heap_size as int) * 1int == heap_size as int) by (nonlinear_arith);
    }
    assert(i.machine.cells() =~= started(heap_size, input).cells());
}

/// The program of a balanced text does what the text means. Run the text for
/// any number of steps, from the machine that the startup sequence leaves; the
/// program, run for some number of its own steps from the start of its entry
/// routine, comes to the same: it stands at the place of the text's index, on
/// the same machine; or it has returned 0, leaving the same machine with its
/// tape released; or it is stuck where the text is undefined. (A text that a
/// string can hold has at most `usize::MAX` characters.)
pub proof fn theorem_simulation(
    heap_size: u64,
    code: Seq<char>,
    input: Seq<u8>,
    steps: nat,
) -> (fuel: nat)
    requires
        balanced(code),
        code.len() <= usize::MAX,
    ensures
        agrees(
            heap_size,
            code,
            text_run(code, started(heap_size, input), 0, steps),
            run(compiled(heap_size, code), initial_config(input), fuel),
        ),
{
    lemma_first_unmatched_exit(code);
    let program = compiled(heap_size, code);
    let begin = initial_config(input);
    let emitted = startup_code(heap_size);
    lemma_compiled_extends(heap_size, code, 0);
    assert(code.take(0) =~= Seq::<char>::empty());
    let first = state_at(heap_size, code, 0);
    assert(first.current() =~= emitted);
    assert forall|i: int| 0 <= i < emitted.len() implies program[0][i] == #[trigger] emitted[i] by {
        assert(program[0][i] == first.current()[i]);
    }
    assert(code_ahead(program, begin, emitted));
    lemma_startup(heap_size, input);
    lemma_run_through(program, begin, emitted);
    let c = run(program, begin, 3)->Running_0;
    assert(c == place(heap_size, code, started(heap_size, input), 0, c.values));
    let rest = lemma_steps(heap_size, code, started(heap_size, input), 0, c.values, steps);
    lemma_run_split(program, begin, 3, rest);
    3 + rest
}

} // verus!
