//! The shape of a compiled program: what a text of comments gives, that loops
//! close, that the same text gives the same program, that every program handed
//! out is well formed, and that it allocates and releases its tape once.

use vstd::prelude::*;
use crate::codegen::{
    CodegenView, compiled, decrement_cell_code, exit_code, increment_cell_code, input_code,
    lemma_emit_nothing, lemma_emit_twice, lemma_scan_shape, lemma_scan_straight, loop_end_code,
    loop_entry_code, move_left_code, move_right_code, output_code, primitive_code, startup_code,
    straight_code, compiles_to,
};
use crate::ir::{Instr, block_ok, blocks_ok, instr_ok};
use crate::program::Program;
use crate::source::{
    CodegenError, balanced, first_unmatched_exit, is_primitive, lemma_first_unmatched_exit,
    lemma_nesting_verdict, lemma_straight_is_balanced, nesting, well_nested,
};

verus! {

/// Comments emit nothing.
proof fn lemma_comment_code(code: Seq<char>)
    requires
        forall|i: int| 0 <= i < code.len() ==> !is_primitive(code[i]),
    ensures
        straight_code(code) == Seq::<Instr>::empty(),
    decreases code.len(),
{
    if code.len() > 0 {
        lemma_comment_code(code.drop_last());
        assert(straight_code(code.drop_last()) + primitive_code(code.last()) =~= Seq::<
            Instr,
        >::empty());
    }
}

/// A text of comments alone (no character among the eight) is balanced, and its
/// program is one block: the startup sequence, then the exit sequence.
pub proof fn theorem_comment_only(heap_size: u64, code: Seq<char>)
    requires
        forall|i: int| 0 <= i < code.len() ==> !is_primitive(code[i]),
    ensures
        nesting(code) is Ok,
        compiled(heap_size, code) == seq![startup_code(heap_size) + exit_code()],
{
    lemma_straight_is_balanced(code);
    lemma_comment_code(code);
    let started = CodegenView::fresh().emit(startup_code(heap_size));
    lemma_scan_straight(started, code);
    lemma_emit_nothing(started);
    lemma_emit_twice(CodegenView::fresh(), startup_code(heap_size), exit_code());
    assert(CodegenView::fresh().emit(startup_code(heap_size) + exit_code()).blocks =~= seq![
        startup_code(heap_size) + exit_code(),
    ]) by {
        assert(Seq::<Instr>::empty() + (startup_code(heap_size) + exit_code())
            =~= startup_code(heap_size) + exit_code());
    }
}

/// The code generator starts with no loop open; on a balanced text the compilation
/// succeeds and ends with no loop open; on a text with a `]` that has no loop to
/// close it fails, and names the first such `]`.
pub proof fn theorem_loops_close(heap_size: u64, code: Seq<char>)
    ensures
        CodegenView::fresh().loops.len() == 0,
        balanced(code) ==> nesting(code) is Ok && CodegenView::fresh().generate(
            heap_size,
            code,
        ).loops.len() == 0,
        !well_nested(code) ==> nesting(code) is Err && first_unmatched_exit(code) is Some
            && nesting(code) == Err::<(), CodegenError>(
            CodegenError::UnmatchedLoopExit {
                position: first_unmatched_exit(code)->0 as usize,
            },
        ),
{
    lemma_nesting_verdict(code);
    lemma_first_unmatched_exit(code);
    let started = CodegenView::fresh().emit(startup_code(heap_size));
    lemma_scan_shape(started, code);
}

/// The result of a compilation is a function of the module name, the tape size
/// and the source text: two results for the same three agree in everything,
/// block for block and instruction for instruction.
pub proof fn theorem_deterministic(
    name: Seq<char>,
    heap_size: u64,
    code: Seq<char>,
    first: Result<Program, CodegenError>,
    second: Result<Program, CodegenError>,
)
    requires
        compiles_to(name, heap_size, code, first),
        compiles_to(name, heap_size, code, second),
    ensures
        first is Ok <==> second is Ok,
        first matches Ok(p) ==> second matches Ok(q) ==> p.name@ == q.name@ && p.body() == q.body()
            && p.externals.standard() && q.externals.standard(),
        first matches Err(e) ==> second matches Err(f) ==> e == f,
{
}

/// Whether every operand in `code` is well typed within `code`: the code names
/// no value from outside itself.
pub open spec fn self_contained(code: Seq<Instr>) -> bool {
    forall|j: int| 0 <= j < code.len() ==> #[trigger] instr_ok(code, j)
}

/// Whether no instruction of `code` ends a block.
pub open spec fn plain(code: Seq<Instr>) -> bool {
    forall|j: int| 0 <= j < code.len() ==> !(#[trigger] code[j]).is_terminator()
}

/// Whether the last instruction of `code`, and no other, ends a block.
pub open spec fn closing(code: Seq<Instr>) -> bool {
    &&& code.len() > 0
    &&& code.last().is_terminator()
    &&& plain(code.drop_last())
}

/// Whether every jump and branch in `blocks` leads to one of the first `count` blocks.
pub open spec fn targets_below(blocks: Seq<Seq<Instr>>, count: int) -> bool {
    forall|b: int, i: int|
        0 <= b < blocks.len() && 0 <= i < blocks[b].len() ==> (
        #[trigger] blocks[b][i]).targets_below(count)
}

/// What holds of the code generator's state between two characters: every block but
/// the last is complete, the last holds well-typed instructions and no
/// terminator, and every jump, branch and open loop names a block that exists.
pub open spec fn under_construction(v: CodegenView) -> bool {
    &&& v.blocks.len() >= 1
    &&& forall|b: int| 0 <= b < v.blocks.len() - 1 ==> #[trigger] block_ok(v.blocks[b])
    &&& self_contained(v.current())
    &&& plain(v.current())
    &&& targets_below(v.blocks, v.blocks.len() as int)
    &&& forall|k: int| 0 <= k < v.loops.len() ==> (#[trigger] v.loops[k]) < v.blocks.len()
}

/// Code that names no value from outside itself stays well typed behind any block.
proof fn lemma_append_self_contained(block: Seq<Instr>, code: Seq<Instr>)
    requires
        self_contained(block),
        self_contained(code),
    ensures
        self_contained(block + code),
{
    let whole = block + code;
    assert forall|j: int| 0 <= j < whole.len() implies #[trigger] instr_ok(whole, j) by {
        if j < block.len() {
            assert(instr_ok(block, j));
            assert(whole[j] == block[j]);
        } else {
            let k = j - block.len();
            assert(instr_ok(code, k));
            assert(whole[j] == code[k]);
        }
    }
}

/// Plain, self-contained code can be emitted at any time.
proof fn lemma_emit_plain(v: CodegenView, code: Seq<Instr>)
    requires
        under_construction(v),
        self_contained(code),
        plain(code),
    ensures
        under_construction(v.emit(code)),
{
    let w = v.emit(code);
    lemma_append_self_contained(v.current(), code);
    assert(w.current() == v.current() + code);
    assert forall|j: int| 0 <= j < w.current().len() implies !(
    #[trigger] w.current()[j]).is_terminator() by {
        if j >= v.current().len() {
            assert(w.current()[j] == code[j - v.current().len()]);
        }
    }
    assert forall|b: int| 0 <= b < w.blocks.len() - 1 implies #[trigger] block_ok(w.blocks[b]) by {
        assert(w.blocks[b] == v.blocks[b]);
    }
    assert forall|b: int, i: int| 0 <= b < w.blocks.len() && 0 <= i < w.blocks[b].len() implies (
    #[trigger] w.blocks[b][i]).targets_below(w.blocks.len() as int) by {
        if b < w.blocks.len() - 1 {
            assert(w.blocks[b] == v.blocks[b]);
        } else if i < v.current().len() {
            assert(w.blocks[b][i] == v.blocks[b][i]);
        } else {
            assert(w.blocks[b][i] == code[i - v.current().len()]);
            assert(!code[i - v.current().len()].is_terminator());
        }
    }
}

/// Self-contained code that ends in its only terminator completes the current
/// block; a new, empty block can follow, and the terminator may lead to it.
proof fn lemma_close_block(v: CodegenView, code: Seq<Instr>, loops: Seq<usize>)
    requires
        under_construction(v),
        self_contained(code),
        closing(code),
        code.last().targets_below(v.blocks.len() as int + 1),
        forall|k: int| 0 <= k < loops.len() ==> (#[trigger] loops[k]) < v.blocks.len() + 1,
    ensures
        under_construction(CodegenView { blocks: v.emit(code).blocks.push(Seq::empty()), loops }),
{
    let closed = v.emit(code);
    let w = CodegenView { blocks: closed.blocks.push(Seq::empty()), loops };
    let done = v.current() + code;
    lemma_append_self_contained(v.current(), code);
    assert(closed.current() == done);
    assert(block_ok(done)) by {
        assert(done.last() == code.last());
        assert forall|i: int| 0 <= i < done.len() - 1 implies !(
        #[trigger] done[i]).is_terminator() by {
            if i >= v.current().len() {
                assert(done[i] == code.drop_last()[i - v.current().len()]);
            }
        }
    }
    assert forall|b: int| 0 <= b < w.blocks.len() - 1 implies #[trigger] block_ok(w.blocks[b]) by {
        if b < v.blocks.len() - 1 {
            assert(w.blocks[b] == v.blocks[b]);
        } else {
            assert(w.blocks[b] == done);
        }
    }
    assert(w.current() =~= Seq::<Instr>::empty());
    assert forall|b: int, i: int| 0 <= b < w.blocks.len() && 0 <= i < w.blocks[b].len() implies (
    #[trigger] w.blocks[b][i]).targets_below(w.blocks.len() as int) by {
        if b < v.blocks.len() - 1 {
            assert(w.blocks[b] == v.blocks[b]);
            assert(v.blocks[b][i].targets_below(v.blocks.len() as int));
        } else if b == v.blocks.len() - 1 {
            assert(w.blocks[b] == done);
            if i < v.current().len() {
                assert(done[i] == v.blocks[b][i]);
                assert(v.blocks[b][i].targets_below(v.blocks.len() as int));
            } else if i < done.len() - 1 {
                assert(done[i] == code.drop_last()[i - v.current().len()]);
                assert(!done[i].is_terminator());
            } else {
                assert(done[i] == code.last());
            }
        }
    }
}

/// The instructions of each character are well typed among themselves, and those
/// of the six characters that open no block hold no terminator.
proof fn lemma_emitted_code(ch: char, heap_size: u64, entry: usize, after: usize)
    ensures
        self_contained(primitive_code(ch)),
        plain(primitive_code(ch)),
        self_contained(startup_code(heap_size)),
        plain(startup_code(heap_size)),
        self_contained(loop_entry_code(entry)),
        closing(loop_entry_code(entry)),
        self_contained(loop_end_code(entry, after)),
        closing(loop_end_code(entry, after)),
        self_contained(exit_code()),
        closing(exit_code()),
{
    assert(self_contained(move_right_code()) && plain(move_right_code()));
    assert(self_contained(move_left_code()) && plain(move_left_code()));
    assert(self_contained(increment_cell_code()) && plain(increment_cell_code()));
    assert(self_contained(decrement_cell_code()) && plain(decrement_cell_code()));
    assert(self_contained(output_code()) && plain(output_code()));
    assert(self_contained(input_code()) && plain(input_code()));
}

/// One character keeps the code generator's state in order.
proof fn lemma_advance(v: CodegenView, ch: char)
    requires
        under_construction(v),
        v.blocks.len() <= usize::MAX,
    ensures
        under_construction(v.advance(ch)),
{
    let entry = v.blocks.len() as usize;
    if ch == '[' {
        lemma_emitted_code(ch, 0, entry, entry);
        lemma_close_block(v, loop_entry_code(entry), v.loops.push(entry));
    } else if ch == ']' {
        if v.loops.len() > 0 {
            lemma_emitted_code(ch, 0, v.loops.last(), entry);
            lemma_close_block(v, loop_end_code(v.loops.last(), entry), v.loops.drop_last());
        }
    } else {
        lemma_emitted_code(ch, 0, entry, entry);
        lemma_emit_plain(v, primitive_code(ch));
    }
}

/// A whole text keeps the code generator's state in order.
proof fn lemma_scan(v: CodegenView, code: Seq<char>)
    requires
        under_construction(v),
        v.blocks.len() + code.len() <= usize::MAX + 1,
    ensures
        under_construction(v.scan(code)),
        v.scan(code).blocks.len() <= v.blocks.len() + code.len(),
    decreases code.len(),
{
    if code.len() > 0 {
        lemma_scan(v, code.drop_last());
        lemma_advance(v.scan(code.drop_last()), code.last());
    }
}

/// The program of a balanced text is well formed. (A text that a string can
/// hold has at most `usize::MAX` characters.)
pub proof fn theorem_well_formed(heap_size: u64, code: Seq<char>)
    requires
        balanced(code),
        code.len() <= usize::MAX,
    ensures
        blocks_ok(compiled(heap_size, code)),
{
    lemma_first_unmatched_exit(code);
    let fresh = CodegenView::fresh();
    lemma_emitted_code(' ', heap_size, 0, 0);
    assert(under_construction(fresh));
    lemma_emit_plain(fresh, startup_code(heap_size));
    let started = fresh.emit(startup_code(heap_size));
    lemma_scan(started, code);
    let scanned = started.scan(code);
    lemma_close_block(scanned, exit_code(), scanned.loops);
    let done = scanned.emit(exit_code());
    let more = done.blocks.push(Seq::empty());
    assert forall|b: int| 0 <= b < done.blocks.len() implies #[trigger] block_ok(
        done.blocks[b],
    ) by {
        assert(more[b] == done.blocks[b]);
    }
    assert forall|b: int, i: int|
        0 <= b < done.blocks.len() && 0 <= i < done.blocks[b].len() implies (
    #[trigger] done.blocks[b][i]).targets_below(done.blocks.len() as int) by {
        assert(more[b][i] == done.blocks[b][i]);
        assert(more[b][i].targets_below(more.len() as int));
        if b < done.blocks.len() - 1 {
            assert(done.blocks[b] == scanned.blocks[b]);
            assert(scanned.blocks[b][i].targets_below(scanned.blocks.len() as int));
        } else if i < scanned.current().len() {
            assert(done.blocks[b][i] == scanned.blocks[b][i]);
            assert(scanned.blocks[b][i].targets_below(scanned.blocks.len() as int));
        } else {
            assert(done.blocks[b][i] == exit_code()[i - scanned.current().len()]);
        }
    }
}

/// Whether `instr` belongs to the startup and exit sequences alone: it reserves
/// the pointer register, allocates or releases the tape, or returns.
pub open spec fn frames(instr: Instr) -> bool {
    instr is ReservePointer || instr is AllocateTape || instr is ReleaseTape || instr is Return
}

/// Whether no instruction of `code` belongs to the startup and exit sequences.
spec fn frameless(code: Seq<Instr>) -> bool {
    forall|j: int| 0 <= j < code.len() ==> !frames(#[trigger] code[j])
}

/// Whether the entry block of `v` begins with the startup sequence and nothing
/// behind that sequence belongs to the startup and exit sequences.
spec fn framed_once(v: CodegenView, heap_size: u64) -> bool {
    &&& v.blocks.len() >= 1
    &&& v.blocks[0].len() >= 3
    &&& forall|i: int| 0 <= i < 3 ==> #[trigger] v.blocks[0][i] == startup_code(heap_size)[i]
    &&& forall|b: int, i: int|
        0 <= b < v.blocks.len() && 0 <= i < v.blocks[b].len() && !(b == 0 && i < 3) ==> !frames(
            #[trigger] v.blocks[b][i],
        )
}

proof fn lemma_emit_frameless(v: CodegenView, heap_size: u64, code: Seq<Instr>)
    requires
        framed_once(v, heap_size),
        frameless(code),
    ensures
        framed_once(v.emit(code), heap_size),
{
    let w = v.emit(code);
    let last = v.blocks.len() - 1;
    assert forall|b: int, i: int|
        0 <= b < w.blocks.len() && 0 <= i < w.blocks[b].len() && !(b == 0 && i < 3) implies !frames(
        #[trigger] w.blocks[b][i],
    ) by {
        if b < last {
            assert(w.blocks[b][i] == v.blocks[b][i]);
        } else if i < v.current().len() {
            assert(w.blocks[b][i] == v.blocks[b][i]);
        } else {
            assert(w.blocks[b][i] == code[i - v.current().len()]);
        }
    }
    assert forall|i: int| 0 <= i < 3 implies #[trigger] w.blocks[0][i] == startup_code(
        heap_size,
    )[i] by {
        assert(w.blocks[0][i] == v.blocks[0][i]);
    }
}

proof fn lemma_advance_frameless(v: CodegenView, heap_size: u64, ch: char)
    requires
        framed_once(v, heap_size),
    ensures
        framed_once(v.advance(ch), heap_size),
{
    let entry = v.blocks.len() as usize;
    if ch == '[' {
        lemma_emit_frameless(v, heap_size, loop_entry_code(entry));
        let w = v.emit(loop_entry_code(entry));
        let more = w.blocks.push(Seq::empty());
        assert forall|b: int, i: int|
            0 <= b < more.len() && 0 <= i < more[b].len() && !(b == 0 && i < 3) implies !frames(
            #[trigger] more[b][i],
        ) by {
            assert(more[b][i] == w.blocks[b][i]);
        }
    } else if ch == ']' {
        if v.loops.len() > 0 {
            let code = loop_end_code(v.loops.last(), entry);
            lemma_emit_frameless(v, heap_size, code);
            let w = v.emit(code);
            let more = w.blocks.push(Seq::empty());
            assert forall|b: int, i: int|
                0 <= b < more.len() && 0 <= i < more[b].len() && !(b == 0 && i < 3) implies !frames(
                #[trigger] more[b][i],
            ) by {
                assert(more[b][i] == w.blocks[b][i]);
            }
        }
    } else {
        lemma_emit_frameless(v, heap_size, primitive_code(ch));
    }
}

proof fn lemma_scan_frameless(v: CodegenView, heap_size: u64, code: Seq<char>)
    requires
        framed_once(v, heap_size),
    ensures
        framed_once(v.scan(code), heap_size),
    decreases code.len(),
{
    if code.len() > 0 {
        lemma_scan_frameless(v, heap_size, code.drop_last());
        lemma_advance_frameless(v.scan(code.drop_last()), heap_size, code.last());
    }
}

/// The program of a balanced text reserves the pointer register once and
/// allocates the tape once, at the start of its entry block, and releases the
/// tape once and returns once, at the end of its last block, the return right
/// behind the release. Nothing else in the program does any of these.
pub proof fn theorem_one_allocation_one_release(heap_size: u64, code: Seq<char>)
    requires
        balanced(code),
    ensures
        ({
            let program = compiled(heap_size, code);
            let last = program.len() - 1;
            let end = program[last].len();
            &&& program.len() >= 1
            &&& program[0].len() >= 3
            &&& end >= 2
            &&& last == 0 ==> end >= 5
            &&& forall|b: int, i: int|
                0 <= b < program.len() && 0 <= i < program[b].len() ==> {
                    &&& (#[trigger] program[b][i]) is ReservePointer <==> b == 0 && i == 0
                    &&& program[b][i] is AllocateTape <==> b == 0 && i == 2
                    &&& program[b][i] is ReleaseTape <==> b == last && i == end - 2
                    &&& program[b][i] is Return <==> b == last && i == end - 1
                }
        }),
{
    lemma_first_unmatched_exit(code);
    let fresh = CodegenView::fresh();
    let started = fresh.emit(startup_code(heap_size));
    assert(started.blocks[0] =~= startup_code(heap_size));
    assert(framed_once(started, heap_size));
    lemma_scan_frameless(started, heap_size, code);
    let scanned = started.scan(code);
    let program = compiled(heap_size, code);
    let last = program.len() - 1;
    let end = program[last].len();
    assert(program[last] == scanned.current() + exit_code());
    assert forall|b: int, i: int| 0 <= b < program.len() && 0 <= i < program[b].len() implies {
        &&& (#[trigger] program[b][i]) is ReservePointer <==> b == 0 && i == 0
        &&& program[b][i] is AllocateTape <==> b == 0 && i == 2
        &&& program[b][i] is ReleaseTape <==> b == last && i == end - 2
        &&& program[b][i] is Return <==> b == last && i == end - 1
    } by {
        if b < last {
            assert(program[b][i] == scanned.blocks[b][i]);
        } else if i < scanned.current().len() {
            assert(program[b][i] == scanned.blocks[b][i]);
        } else {
            assert(program[b][i] == exit_code()[i - scanned.current().len()]);
        }
        if b == 0 && i < 3 {
            assert(scanned.blocks[0][i] == startup_code(heap_size)[i]);
        }
    }
}

} // verus!
