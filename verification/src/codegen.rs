//! The code generator: one forward scan over the source text that emits the
//! instructions of each character as it meets it.
//!
//! Emission always goes to the newest block. `[` ends the current block with a
//! jump into a new one and remembers that block; `]` ends the current block with
//! a test of the current cell that branches back to the remembered block or on
//! to a new one. The loop body therefore runs before the cell is first tested.

use vstd::prelude::*;
use crate::ir::{Instr, IntTy, Operand, block_views, blocks_ok};
use crate::program::{ExternalFns, Program};
use crate::shape::theorem_well_formed;
use crate::source::{
    CodegenError, balanced, depth, first_unmatched_exit, lemma_chars_within_bytes,
    lemma_fault_in_prefix, lemma_nesting_verdict, lemma_prefix_step, nesting, straight,
};

verus! {

/// The start of every program: reserve the pointer register, set it to zero,
/// allocate `heap_size` zeroed bytes of tape.
pub open spec fn startup_code(heap_size: u64) -> Seq<Instr> {
    seq![
        Instr::ReservePointer,
        Instr::StorePointer { value: Operand::Const(IntTy::I32, 0) },
        Instr::AllocateTape {
            count: Operand::Const(IntTy::Size, heap_size),
            size: Operand::Const(IntTy::Size, 1),
        },
    ]
}

/// Computes the address of the current cell: its last instruction yields it.
pub open spec fn cell_address_code() -> Seq<Instr> {
    seq![Instr::LoadPointer, Instr::CellAddress { index: Operand::Back(1) }]
}

/// `>`: the pointer register goes up by one.
pub open spec fn move_right_code() -> Seq<Instr> {
    seq![
        Instr::LoadPointer,
        Instr::Add { ty: IntTy::I32, lhs: Operand::Back(1), rhs: Operand::Const(IntTy::I32, 1) },
        Instr::StorePointer { value: Operand::Back(1) },
    ]
}

/// `<`: the pointer register goes down by one.
pub open spec fn move_left_code() -> Seq<Instr> {
    seq![
        Instr::LoadPointer,
        Instr::Sub { ty: IntTy::I32, lhs: Operand::Back(1), rhs: Operand::Const(IntTy::I32, 1) },
        Instr::StorePointer { value: Operand::Back(1) },
    ]
}

/// `.`: the current cell, widened to a character code, goes to standard output.
pub open spec fn output_code() -> Seq<Instr> {
    seq![
        Instr::LoadPointer,
        Instr::CellAddress { index: Operand::Back(1) },
        Instr::LoadCell { address: Operand::Back(1) },
        Instr::ZeroExtend { value: Operand::Back(1) },
        Instr::WriteChar { value: Operand::Back(1) },
    ]
}

/// `,`: one character code from standard input, narrowed to eight bits, goes
/// into the current cell.
pub open spec fn input_code() -> Seq<Instr> {
    seq![
        Instr::LoadPointer,
        Instr::CellAddress { index: Operand::Back(1) },
        Instr::ReadChar,
        Instr::Truncate { value: Operand::Back(1) },
        Instr::StoreCell { address: Operand::Back(3), value: Operand::Back(1) },
    ]
}

/// `+`: the current cell goes up by one, wrapping at eight bits.
pub open spec fn increment_cell_code() -> Seq<Instr> {
    seq![
        Instr::LoadPointer,
        Instr::CellAddress { index: Operand::Back(1) },
        Instr::LoadCell { address: Operand::Back(1) },
        Instr::Add { ty: IntTy::I8, lhs: Operand::Back(1), rhs: Operand::Const(IntTy::I8, 1) },
        Instr::StoreCell { address: Operand::Back(3), value: Operand::Back(1) },
    ]
}

/// `-`: the current cell goes down by one, wrapping at eight bits.
pub open spec fn decrement_cell_code() -> Seq<Instr> {
    seq![
        Instr::LoadPointer,
        Instr::CellAddress { index: Operand::Back(1) },
        Instr::LoadCell { address: Operand::Back(1) },
        Instr::Sub { ty: IntTy::I8, lhs: Operand::Back(1), rhs: Operand::Const(IntTy::I8, 1) },
        Instr::StoreCell { address: Operand::Back(3), value: Operand::Back(1) },
    ]
}

/// `[`: a jump into the loop's block.
pub open spec fn loop_entry_code(entry: usize) -> Seq<Instr> {
    seq![Instr::Jump { target: entry }]
}

/// The test of `]`: its last instruction yields one bit, set when the current
/// cell is not zero.
pub open spec fn loop_test_code() -> Seq<Instr> {
    seq![
        Instr::LoadPointer,
        Instr::CellAddress { index: Operand::Back(1) },
        Instr::LoadCell { address: Operand::Back(1) },
        Instr::CompareNe {
            ty: IntTy::I8,
            lhs: Operand::Back(1),
            rhs: Operand::Const(IntTy::I8, 0),
        },
    ]
}

/// `]`: test the current cell; branch back to block `entry` if it is not zero,
/// on to block `after` if it is.
pub open spec fn loop_end_code(entry: usize, after: usize) -> Seq<Instr> {
    loop_test_code().push(
        Instr::Branch { condition: Operand::Back(1), if_true: entry, if_false: after },
    )
}

/// The end of every program: release the tape, return status zero.
pub open spec fn exit_code() -> Seq<Instr> {
    seq![Instr::ReleaseTape, Instr::Return { value: Operand::Const(IntTy::I32, 0) }]
}

/// What one of the six characters that need no new block emits; nothing for any
/// other character.
pub open spec fn primitive_code(ch: char) -> Seq<Instr> {
    if ch == '>' {
        move_right_code()
    } else if ch == '<' {
        move_left_code()
    } else if ch == '+' {
        increment_cell_code()
    } else if ch == '-' {
        decrement_cell_code()
    } else if ch == '.' {
        output_code()
    } else if ch == ',' {
        input_code()
    } else {
        Seq::empty()
    }
}

/// What a text without loops emits: the instructions of its characters, in order.
pub open spec fn straight_code(text: Seq<char>) -> Seq<Instr>
    decreases text.len(),
{
    if text.len() == 0 {
        Seq::empty()
    } else {
        straight_code(text.drop_last()) + primitive_code(text.last())
    }
}

/// The code generator's state as plain data.
pub struct CodegenView {
    /// The blocks emitted so far, in the order of their creation. There is
    /// always at least one; emission goes to the last.
    pub blocks: Seq<Seq<Instr>>,
    /// The entry blocks of the loops that are open, innermost last.
    pub loops: Seq<usize>,
}

impl CodegenView {
    /// The state before anything is emitted: an empty entry block, no open loop.
    pub open spec fn fresh() -> CodegenView {
        CodegenView { blocks: seq![Seq::<Instr>::empty()], loops: Seq::empty() }
    }

    /// The block that emission goes to.
    pub open spec fn current(self) -> Seq<Instr> {
        self.blocks.last()
    }

    /// `code` appended to the current block.
    pub open spec fn emit(self, code: Seq<Instr>) -> CodegenView {
        CodegenView {
            blocks: self.blocks.update(self.blocks.len() - 1, self.current() + code),
            loops: self.loops,
        }
    }

    /// `[`: the current block jumps into a new block, which becomes current and
    /// is remembered as the innermost open loop.
    pub open spec fn enter_loop(self) -> CodegenView {
        let entry = self.blocks.len() as usize;
        CodegenView {
            blocks: self.emit(loop_entry_code(entry)).blocks.push(Seq::empty()),
            loops: self.loops.push(entry),
        }
    }

    /// `]` with a loop open: the current block ends with the test that branches
    /// back to the innermost open loop or on to a new block, which becomes
    /// current; that loop is then closed.
    pub open spec fn leave_loop(self) -> CodegenView {
        let after = self.blocks.len() as usize;
        CodegenView {
            blocks: self.emit(loop_end_code(self.loops.last(), after)).blocks.push(Seq::empty()),
            loops: self.loops.drop_last(),
        }
    }

    /// The state after one character of source text. A `]` with no loop open
    /// changes nothing.
    pub open spec fn advance(self, ch: char) -> CodegenView {
        if ch == '[' {
            self.enter_loop()
        } else if ch == ']' {
            if self.loops.len() > 0 {
                self.leave_loop()
            } else {
                self
            }
        } else {
            self.emit(primitive_code(ch))
        }
    }

    /// The state after the characters of `code`, left to right.
    pub open spec fn scan(self, code: Seq<char>) -> CodegenView
        decreases code.len(),
    {
        if code.len() == 0 {
            self
        } else {
            self.scan(code.drop_last()).advance(code.last())
        }
    }

    /// The state in which compiling `code` with a tape of `heap_size` bytes
    /// ends: after the whole text and the exit sequence where the loops nest
    /// properly, after the text without exit sequence where loops stay open, and
    /// just before the first `]` that has no loop to close.
    pub open spec fn generate(self, heap_size: u64, code: Seq<char>) -> CodegenView {
        let started = self.emit(startup_code(heap_size));
        match first_unmatched_exit(code) {
            Some(position) => started.scan(code.take(position)),
            None => if depth(code) > 0 {
                started.scan(code)
            } else {
                started.scan(code).emit(exit_code())
            },
        }
    }
}

/// The blocks of the program that `code` compiles to, with a tape of
/// `heap_size` bytes; meaningful where the loops of `code` nest properly.
pub open spec fn compiled(heap_size: u64, code: Seq<char>) -> Seq<Seq<Instr>> {
    CodegenView::fresh().generate(heap_size, code).blocks
}

/// The code generator. It owns the program under construction and the stack of
/// open loops.
pub struct Codegen {
    /// The blocks that are complete, in the order of their creation.
    finished: Vec<Vec<Instr>>,
    /// The block that emission goes to: the newest.
    current: Vec<Instr>,
    /// The entry blocks of the open loops, innermost last.
    loop_stack: Vec<usize>,
}

impl View for Codegen {
    type V = CodegenView;

    closed spec fn view(&self) -> CodegenView {
        CodegenView {
            blocks: block_views(self.finished@).push(self.current@),
            loops: self.loop_stack@,
        }
    }
}

impl Codegen {
    /// A code generator that has emitted nothing.
    pub fn new() -> (r: Codegen)
        ensures
            r@ == CodegenView::fresh(),
    {
        let r = Codegen { finished: Vec::new(), current: Vec::new(), loop_stack: Vec::new() };
        proof {
            assert(r@.blocks =~= CodegenView::fresh().blocks);
        }
        r
    }

    /// Appends one instruction to the current block.
    fn push(&mut self, instr: Instr)
        ensures
            final(self)@ == old(self)@.emit(seq![instr]),
    {
        self.current.push(instr);
        proof {
            assert(self.current@ =~= old(self).current@ + seq![instr]);
            assert(old(self)@.current() == old(self).current@);
            assert(self@.blocks =~= old(self)@.emit(seq![instr]).blocks);
        }
    }

    /// Ends the current block and makes a new, empty block current.
    fn open_block(&mut self)
        ensures
            final(self)@.blocks == old(self)@.blocks.push(Seq::empty()),
            final(self)@.loops == old(self)@.loops,
    {
        let mut block: Vec<Instr> = Vec::new();
        core::mem::swap(&mut self.current, &mut block);
        self.finished.push(block);
        proof {
            assert(self@.blocks =~= old(self)@.blocks.push(Seq::empty()));
        }
    }

    /// The number of loops that are open.
    pub fn open_loops(&self) -> (r: usize)
        ensures
            r == self@.loops.len(),
    {
        self.loop_stack.len()
    }

    /// Emits the startup sequence for a tape of `heap_size` bytes. It belongs
    /// before any other emission.
    pub fn gen_startup(&mut self, heap_size: u64)
        ensures
            final(self)@ == old(self)@.emit(startup_code(heap_size)),
    {
        self.push(Instr::ReservePointer);
        self.push(Instr::StorePointer { value: Operand::Const(IntTy::I32, 0) });
        self.push(
            Instr::AllocateTape {
                count: Operand::Const(IntTy::Size, heap_size),
                size: Operand::Const(IntTy::Size, 1),
            },
        );
        proof {
            lemma_emit_three(
                old(self)@,
                Instr::ReservePointer,
                Instr::StorePointer { value: Operand::Const(IntTy::I32, 0) },
                Instr::AllocateTape {
                    count: Operand::Const(IntTy::Size, heap_size),
                    size: Operand::Const(IntTy::Size, 1),
                },
            );
        }
    }

    /// Emits the computation of the current cell's address. The address is the
    /// result of the last instruction emitted.
    pub fn get_cell_ptr(&mut self)
        ensures
            final(self)@ == old(self)@.emit(cell_address_code()),
    {
        self.push(Instr::LoadPointer);
        self.push(Instr::CellAddress { index: Operand::Back(1) });
        proof {
            lemma_emit_twice(
                old(self)@,
                seq![Instr::LoadPointer],
                seq![Instr::CellAddress { index: Operand::Back(1) }],
            );
            assert(seq![Instr::LoadPointer] + seq![Instr::CellAddress { index: Operand::Back(1) }]
                =~= cell_address_code());
        }
    }

    /// Emits `>`.
    pub fn gen_move_right(&mut self)
        ensures
            final(self)@ == old(self)@.emit(move_right_code()),
    {
        self.push(Instr::LoadPointer);
        self.push(
            Instr::Add {
                ty: IntTy::I32,
                lhs: Operand::Back(1),
                rhs: Operand::Const(IntTy::I32, 1),
            },
        );
        self.push(Instr::StorePointer { value: Operand::Back(1) });
        proof {
            lemma_emit_three(
                old(self)@,
                Instr::LoadPointer,
                Instr::Add {
                    ty: IntTy::I32,
                    lhs: Operand::Back(1),
                    rhs: Operand::Const(IntTy::I32, 1),
                },
                Instr::StorePointer { value: Operand::Back(1) },
            );
        }
    }

    /// Emits `<`.
    pub fn gen_move_left(&mut self)
        ensures
            final(self)@ == old(self)@.emit(move_left_code()),
    {
        self.push(Instr::LoadPointer);
        self.push(
            Instr::Sub {
                ty: IntTy::I32,
                lhs: Operand::Back(1),
                rhs: Operand::Const(IntTy::I32, 1),
            },
        );
        self.push(Instr::StorePointer { value: Operand::Back(1) });
        proof {
            lemma_emit_three(
                old(self)@,
                Instr::LoadPointer,
                Instr::Sub {
                    ty: IntTy::I32,
                    lhs: Operand::Back(1),
                    rhs: Operand::Const(IntTy::I32, 1),
                },
                Instr::StorePointer { value: Operand::Back(1) },
            );
        }
    }

    /// Emits `.`.
    pub fn gen_output(&mut self)
        ensures
            final(self)@ == old(self)@.emit(output_code()),
    {
        self.get_cell_ptr();
        let ghost addressed = self@;
        self.push(Instr::LoadCell { address: Operand::Back(1) });
        self.push(Instr::ZeroExtend { value: Operand::Back(1) });
        self.push(Instr::WriteChar { value: Operand::Back(1) });
        proof {
            lemma_emit_three(
                addressed,
                Instr::LoadCell { address: Operand::Back(1) },
                Instr::ZeroExtend { value: Operand::Back(1) },
                Instr::WriteChar { value: Operand::Back(1) },
            );
            lemma_emit_on_cell(
                old(self)@,
                Instr::LoadCell { address: Operand::Back(1) },
                Instr::ZeroExtend { value: Operand::Back(1) },
                Instr::WriteChar { value: Operand::Back(1) },
            );
        }
    }

    /// Emits `,`.
    pub fn gen_input(&mut self)
        ensures
            final(self)@ == old(self)@.emit(input_code()),
    {
        self.get_cell_ptr();
        let ghost addressed = self@;
        self.push(Instr::ReadChar);
        self.push(Instr::Truncate { value: Operand::Back(1) });
        self.push(Instr::StoreCell { address: Operand::Back(3), value: Operand::Back(1) });
        proof {
            lemma_emit_three(
                addressed,
                Instr::ReadChar,
                Instr::Truncate { value: Operand::Back(1) },
                Instr::StoreCell { address: Operand::Back(3), value: Operand::Back(1) },
            );
            lemma_emit_on_cell(
                old(self)@,
                Instr::ReadChar,
                Instr::Truncate { value: Operand::Back(1) },
                Instr::StoreCell { address: Operand::Back(3), value: Operand::Back(1) },
            );
        }
    }

    /// Emits `+`.
    pub fn gen_increment_cell(&mut self)
        ensures
            final(self)@ == old(self)@.emit(increment_cell_code()),
    {
        self.get_cell_ptr();
        let ghost addressed = self@;
        self.push(Instr::LoadCell { address: Operand::Back(1) });
        self.push(
            Instr::Add { ty: IntTy::I8, lhs: Operand::Back(1), rhs: Operand::Const(IntTy::I8, 1) },
        );
        self.push(Instr::StoreCell { address: Operand::Back(3), value: Operand::Back(1) });
        proof {
            lemma_emit_three(
                addressed,
                Instr::LoadCell { address: Operand::Back(1) },
                Instr::Add {
                    ty: IntTy::I8,
                    lhs: Operand::Back(1),
                    rhs: Operand::Const(IntTy::I8, 1),
                },
                Instr::StoreCell { address: Operand::Back(3), value: Operand::Back(1) },
            );
            lemma_emit_on_cell(
                old(self)@,
                Instr::LoadCell { address: Operand::Back(1) },
                Instr::Add {
                    ty: IntTy::I8,
                    lhs: Operand::Back(1),
                    rhs: Operand::Const(IntTy::I8, 1),
                },
                Instr::StoreCell { address: Operand::Back(3), value: Operand::Back(1) },
            );
        }
    }

    /// Emits `-`.
    pub fn gen_decrement_cell(&mut self)
        ensures
            final(self)@ == old(self)@.emit(decrement_cell_code()),
    {
        self.get_cell_ptr();
        let ghost addressed = self@;
        self.push(Instr::LoadCell { address: Operand::Back(1) });
        self.push(
            Instr::Sub { ty: IntTy::I8, lhs: Operand::Back(1), rhs: Operand::Const(IntTy::I8, 1) },
        );
        self.push(Instr::StoreCell { address: Operand::Back(3), value: Operand::Back(1) });
        proof {
            lemma_emit_three(
                addressed,
                Instr::LoadCell { address: Operand::Back(1) },
                Instr::Sub {
                    ty: IntTy::I8,
                    lhs: Operand::Back(1),
                    rhs: Operand::Const(IntTy::I8, 1),
                },
                Instr::StoreCell { address: Operand::Back(3), value: Operand::Back(1) },
            );
            lemma_emit_on_cell(
                old(self)@,
                Instr::LoadCell { address: Operand::Back(1) },
                Instr::Sub {
                    ty: IntTy::I8,
                    lhs: Operand::Back(1),
                    rhs: Operand::Const(IntTy::I8, 1),
                },
                Instr::StoreCell { address: Operand::Back(3), value: Operand::Back(1) },
            );
        }
    }

    /// Emits `[`: opens a loop. The index of the new block must fit `usize`.
    pub fn gen_loop_entry(&mut self)
        requires
            old(self)@.blocks.len() <= usize::MAX,
        ensures
            final(self)@ == old(self)@.enter_loop(),
    {
        let entry: usize = self.finished.len() + 1;
        self.push(Instr::Jump { target: entry });
        self.open_block();
        self.loop_stack.push(entry);
    }

    /// Emits `]`: closes the innermost open loop, of which there must be one.
    /// The index of the new block must fit `usize`.
    pub fn gen_loop_end(&mut self)
        requires
            old(self)@.loops.len() > 0,
            old(self)@.blocks.len() <= usize::MAX,
        ensures
            final(self)@ == old(self)@.leave_loop(),
    {
        let after: usize = self.finished.len() + 1;
        let entry: usize = self.loop_stack[self.loop_stack.len() - 1];
        self.get_cell_ptr();
        let ghost addressed = self@;
        self.push(Instr::LoadCell { address: Operand::Back(1) });
        self.push(
            Instr::CompareNe {
                ty: IntTy::I8,
                lhs: Operand::Back(1),
                rhs: Operand::Const(IntTy::I8, 0),
            },
        );
        self.push(Instr::Branch { condition: Operand::Back(1), if_true: entry, if_false: after });
        proof {
            lemma_emit_three(
                addressed,
                Instr::LoadCell { address: Operand::Back(1) },
                Instr::CompareNe {
                    ty: IntTy::I8,
                    lhs: Operand::Back(1),
                    rhs: Operand::Const(IntTy::I8, 0),
                },
                Instr::Branch { condition: Operand::Back(1), if_true: entry, if_false: after },
            );
            lemma_emit_on_cell(
                old(self)@,
                Instr::LoadCell { address: Operand::Back(1) },
                Instr::CompareNe {
                    ty: IntTy::I8,
                    lhs: Operand::Back(1),
                    rhs: Operand::Const(IntTy::I8, 0),
                },
                Instr::Branch { condition: Operand::Back(1), if_true: entry, if_false: after },
            );
            assert(loop_end_code(entry, after) =~= seq![
                Instr::LoadPointer,
                Instr::CellAddress { index: Operand::Back(1) },
                Instr::LoadCell { address: Operand::Back(1) },
                Instr::CompareNe {
                    ty: IntTy::I8,
                    lhs: Operand::Back(1),
                    rhs: Operand::Const(IntTy::I8, 0),
                },
                Instr::Branch { condition: Operand::Back(1), if_true: entry, if_false: after },
            ]);
        }
        self.open_block();
        self.loop_stack.pop();
    }

    /// Emits the exit sequence.
    pub fn gen_exit(&mut self)
        ensures
            final(self)@ == old(self)@.emit(exit_code()),
    {
        self.push(Instr::ReleaseTape);
        self.push(Instr::Return { value: Operand::Const(IntTy::I32, 0) });
        proof {
            lemma_emit_twice(
                old(self)@,
                seq![Instr::ReleaseTape],
                seq![Instr::Return { value: Operand::Const(IntTy::I32, 0) }],
            );
            assert(seq![Instr::ReleaseTape] + seq![
                Instr::Return { value: Operand::Const(IntTy::I32, 0) },
            ] =~= exit_code());
        }
    }

    /// Compiles `code` for a tape of `heap_size` bytes: the startup sequence,
    /// then each character in turn, then the exit sequence. Characters other
    /// than the eight that mean something are skipped.
    ///
    /// The compilation stops at the first `]` that has no loop to close, and
    /// before the exit sequence where the text ends with loops open. Where it
    /// succeeds, the program is well formed.
    pub fn generate(&mut self, heap_size: u64, code: &str) -> (r: Result<(), CodegenError>)
        requires
            old(self)@ == CodegenView::fresh(),
        ensures
            r == nesting(code@),
            final(self)@ == old(self)@.generate(heap_size, code@),
            r is Ok ==> blocks_ok(final(self)@.blocks),
    {
        let bytes = code.as_bytes();
        proof {
            lemma_chars_within_bytes(code@);
            assert(bytes@.len() == vstd::slice::spec_slice_len(bytes));
            lemma_nesting_verdict(code@);
            if balanced(code@) {
                theorem_well_formed(heap_size, code@);
            }
        }
        self.gen_startup(heap_size);
        let ghost started = self@;
        let mut position: usize = 0;
        for ch in it: code.chars()
            invariant
                it.seq() == code@,
                code@.len() <= usize::MAX,
                position == it.index(),
                started == old(self)@.emit(startup_code(heap_size)),
                started.blocks.len() == 1,
                self@ == started.scan(code@.take(it.index())),
                first_unmatched_exit(code@.take(it.index())) is None,
                self@.loops.len() == depth(code@.take(it.index())),
                1 <= self@.blocks.len() <= it.index() + 1,
        {
            proof {
                lemma_prefix_step(code@, position as int);
            }
            if ch == '[' {
                self.gen_loop_entry();
            } else if ch == ']' {
                if self.loop_stack.len() == 0 {
                    proof {
                        lemma_fault_in_prefix(code@, position + 1);
                    }
                    return Err(CodegenError::UnmatchedLoopExit { position });
                }
                self.gen_loop_end();
            } else if ch == '>' {
                self.gen_move_right();
            } else if ch == '<' {
                self.gen_move_left();
            } else if ch == '+' {
                self.gen_increment_cell();
            } else if ch == '-' {
                self.gen_decrement_cell();
            } else if ch == '.' {
                self.gen_output();
            } else if ch == ',' {
                self.gen_input();
            } else {
                proof {
                    lemma_emit_nothing(self@);
                }
            }
            position = position + 1;
        }
        proof {
            assert(code@.take(code@.len() as int) =~= code@);
        }
        let open = self.loop_stack.len();
        if open > 0 {
            return Err(CodegenError::UnclosedLoop { open });
        }
        self.gen_exit();
        Ok(())
    }

    /// The blocks emitted, in the order of their creation.
    pub fn finish(self) -> (r: Vec<Vec<Instr>>)
        ensures
            block_views(r@) == self@.blocks,
    {
        let Codegen { finished, current, loop_stack } = self;
        let mut blocks = finished;
        blocks.push(current);
        proof {
            assert(block_views(blocks@) =~= self@.blocks);
        }
        blocks
    }
}

/// Whether `r` is what compiling `code` under the module name `name`, with a
/// tape of `heap_size` bytes, gives: the program where the loops of `code` nest
/// properly, else the fault in its nesting.
pub open spec fn compiles_to(
    name: Seq<char>,
    heap_size: u64,
    code: Seq<char>,
    r: Result<Program, CodegenError>,
) -> bool {
    match r {
        Ok(program) => {
            &&& nesting(code) is Ok
            &&& program.name@ == name
            &&& program.externals.standard()
            &&& program.body() == compiled(heap_size, code)
        },
        Err(fault) => nesting(code) == Err::<(), CodegenError>(fault),
    }
}

/// Compiles the source text `code` into a program named `name` whose tape has
/// `heap_size` bytes.
pub fn compile_module(name: &str, heap_size: u64, code: &str) -> (r: Result<Program, CodegenError>)
    ensures
        compiles_to(name@, heap_size, code@, r),
        r matches Ok(program) ==> blocks_ok(program.body()),
{
    let mut codegen = Codegen::new();
    match codegen.generate(heap_size, code) {
        Ok(()) => {
            let blocks = codegen.finish();
            let program = Program { name: name.to_owned(), externals: ExternalFns::new(), blocks };
            Ok(program)
        },
        Err(fault) => Err(fault),
    }
}

/// Emitting in two steps is emitting the concatenation.
pub proof fn lemma_emit_twice(v: CodegenView, a: Seq<Instr>, b: Seq<Instr>)
    requires
        v.blocks.len() > 0,
    ensures
        v.emit(a).emit(b) == v.emit(a + b),
{
    assert(v.emit(a).emit(b).blocks =~= v.emit(a + b).blocks) by {
        assert((v.current() + a) + b =~= v.current() + (a + b));
    }
}

/// The code generator never drops a block, and the stack of open loops follows the
/// depth of a well-nested text.
pub proof fn lemma_scan_shape(v: CodegenView, code: Seq<char>)
    requires
        v.blocks.len() > 0,
    ensures
        v.blocks.len() <= v.scan(code).blocks.len() <= v.blocks.len() + code.len(),
        first_unmatched_exit(code) is None ==> v.scan(code).loops.len() == v.loops.len() + depth(
            code,
        ),
    decreases code.len(),
{
    if code.len() > 0 {
        lemma_scan_shape(v, code.drop_last());
    }
}

/// A text without loops is compiled into the current block alone.
pub proof fn lemma_scan_straight(v: CodegenView, text: Seq<char>)
    requires
        v.blocks.len() > 0,
        straight(text),
    ensures
        v.scan(text) == v.emit(straight_code(text)),
    decreases text.len(),
{
    if text.len() == 0 {
        lemma_emit_nothing(v);
    } else {
        lemma_scan_straight(v, text.drop_last());
        lemma_emit_twice(v, straight_code(text.drop_last()), primitive_code(text.last()));
    }
}

/// Emitting nothing changes nothing.
pub proof fn lemma_emit_nothing(v: CodegenView)
    requires
        v.blocks.len() > 0,
    ensures
        v.emit(Seq::empty()) == v,
{
    assert(v.emit(Seq::empty()).blocks =~= v.blocks) by {
        assert(v.current() + Seq::<Instr>::empty() =~= v.current());
    }
}

/// Emitting three instructions one by one is emitting them at once.
proof fn lemma_emit_three(v: CodegenView, a: Instr, b: Instr, c: Instr)
    requires
        v.blocks.len() > 0,
    ensures
        v.emit(seq![a]).emit(seq![b]).emit(seq![c]) == v.emit(seq![a, b, c]),
{
    lemma_emit_twice(v, seq![a], seq![b]);
    lemma_emit_twice(v, seq![a] + seq![b], seq![c]);
    assert(seq![a] + seq![b] + seq![c] =~= seq![a, b, c]);
}

/// Emitting three instructions after the address of the current cell is
/// emitting the five at once.
proof fn lemma_emit_on_cell(v: CodegenView, a: Instr, b: Instr, c: Instr)
    requires
        v.blocks.len() > 0,
    ensures
        v.emit(cell_address_code()).emit(seq![a, b, c]) == v.emit(
            seq![Instr::LoadPointer, Instr::CellAddress { index: Operand::Back(1) }, a, b, c],
        ),
{
    lemma_emit_twice(v, cell_address_code(), seq![a, b, c]);
    assert(cell_address_code() + seq![a, b, c] =~= seq![
        Instr::LoadPointer,
        Instr::CellAddress { index: Operand::Back(1) },
        a,
        b,
        c,
    ]);
}

} // verus!
