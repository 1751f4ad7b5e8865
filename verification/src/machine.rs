//! What a program means: an abstract machine that runs the instructions.
//!
//! The machine holds the pointer register, the tape, the unread standard input
//! and the standard output written so far. Integer values are kept as their
//! unsigned bit patterns. A step that the target would leave undefined (a value
//! that was never computed, a cell outside the tape, a tape used before it is
//! allocated or after it is released) has no result here. An allocation is
//! taken to succeed: a program that is refused its tape is not modelled.

use vstd::prelude::*;
use crate::ir::{Instr, Operand};

verus! {

/// The pointer register.
pub enum Register {
    /// Not reserved yet.
    Unreserved,
    /// Reserved, and never written.
    Undefined,
    /// Holding a 32-bit value.
    Holding(int),
}

/// The tape.
pub enum Tape {
    /// Not allocated yet.
    Unallocated,
    /// Allocated, with these cells.
    Live(Seq<u8>),
    /// Released.
    Released,
}

/// The state of a running program.
pub struct Machine {
    pub pointer: Register,
    pub tape: Tape,
    /// Standard input that has not been read.
    pub input: Seq<u8>,
    /// Standard output written so far.
    pub output: Seq<u8>,
}

impl Machine {
    /// Whether the pointer register, where it holds a value, holds a 32-bit one.
    pub open spec fn wf(self) -> bool {
        self.pointer matches Register::Holding(bits) ==> 0 <= bits < 0x1_0000_0000
    }

    /// The bit pattern in the pointer register; meaningful where it holds one.
    pub open spec fn pointer_bits(self) -> int {
        self.pointer->Holding_0
    }

    /// The cells of the tape; meaningful while it is live.
    pub open spec fn cells(self) -> Seq<u8> {
        self.tape->Live_0
    }

    /// The index of the current cell: the pointer register read as a signed number.
    pub open spec fn cell_index(self) -> int {
        signed32(self.pointer_bits())
    }

    /// Whether there is a current cell: the register holds a value, the tape is
    /// live, and the register points into it.
    pub open spec fn on_tape(self) -> bool {
        &&& self.pointer is Holding
        &&& self.tape is Live
        &&& 0 <= self.cell_index() < self.cells().len()
    }

    /// The current cell; meaningful where there is one.
    pub open spec fn cell(self) -> u8 {
        self.cells()[self.cell_index()]
    }

    /// This machine with `bits` in the pointer register.
    pub open spec fn with_pointer(self, bits: int) -> Machine {
        Machine { pointer: Register::Holding(bits), ..self }
    }

    /// This machine with `value` in the current cell.
    pub open spec fn with_cell(self, value: u8) -> Machine {
        Machine { tape: Tape::Live(self.cells().update(self.cell_index(), value)), ..self }
    }
}

/// A machine together with the results of the instructions of the current block
/// that have run, oldest first.
pub struct Frame {
    pub machine: Machine,
    pub values: Seq<int>,
}

/// The machine before the entry routine starts, with `input` on standard input.
pub open spec fn initial_machine(input: Seq<u8>) -> Machine {
    Machine { pointer: Register::Unreserved, tape: Tape::Unallocated, input, output: Seq::empty() }
}

/// A 32-bit pattern read as a signed number.
pub open spec fn signed32(bits: int) -> int {
    if bits >= 0x8000_0000 {
        bits - 0x1_0000_0000
    } else {
        bits
    }
}

/// The value of `operand` for an instruction that runs after `values`.
pub open spec fn operand_value(values: Seq<int>, operand: Operand) -> Option<int> {
    match operand {
        Operand::Const(_, value) => Some(value as int),
        Operand::Back(distance) => if 1 <= distance <= values.len() {
            Some(values[values.len() - distance])
        } else {
            None
        },
    }
}

/// What `getchar` yields on `input`: the next byte, or the pattern of -1 at the
/// end of input.
pub open spec fn read_char(input: Seq<u8>) -> int {
    if input.len() > 0 {
        input[0] as int
    } else {
        0xFFFF_FFFF
    }
}

/// The input left after one `getchar`.
pub open spec fn after_read(input: Seq<u8>) -> Seq<u8> {
    if input.len() > 0 {
        input.drop_first()
    } else {
        input
    }
}

/// One instruction that does not end a block: the machine after it and the value
/// it yields (0 where it yields none). `None` where the step is undefined, and
/// for a terminator.
pub open spec fn step_instr(m: Machine, values: Seq<int>, instr: Instr) -> Option<(Machine, int)> {
    match instr {
        Instr::ReservePointer => if m.pointer is Unreserved {
            Some((Machine { pointer: Register::Undefined, ..m }, 0))
        } else {
            None
        },
        Instr::StorePointer { value } => match operand_value(values, value) {
            Some(v) if !(m.pointer is Unreserved) => Some(
                (Machine { pointer: Register::Holding(v % 0x1_0000_0000), ..m }, 0),
            ),
            _ => None,
        },
        Instr::LoadPointer => match m.pointer {
            Register::Holding(v) => Some((m, v)),
            _ => None,
        },
        Instr::AllocateTape { count, size } => match (
            operand_value(values, count),
            operand_value(values, size),
        ) {
            (Some(c), Some(s)) if m.tape is Unallocated && c >= 0 && s >= 0 => Some(
                (Machine { tape: Tape::Live(Seq::new((c * s) as nat, |i: int| 0u8)), ..m }, 0),
            ),
            _ => None,
        },
        Instr::ReleaseTape => if m.tape is Live {
            Some((Machine { tape: Tape::Released, ..m }, 0))
        } else {
            None
        },
        Instr::CellAddress { index } => match operand_value(values, index) {
            Some(i) if m.tape is Live => Some((m, signed32(i))),
            _ => None,
        },
        Instr::LoadCell { address } => match (m.tape, operand_value(values, address)) {
            (Tape::Live(cells), Some(a)) if 0 <= a < cells.len() => Some((m, cells[a] as int)),
            _ => None,
        },
        Instr::StoreCell { address, value } => match (
            m.tape,
            operand_value(values, address),
            operand_value(values, value),
        ) {
            (Tape::Live(cells), Some(a), Some(v)) if 0 <= a < cells.len() => Some(
                (Machine { tape: Tape::Live(cells.update(a, (v % 0x100) as u8)), ..m }, 0),
            ),
            _ => None,
        },
        Instr::Add { ty, lhs, rhs } => match (
            operand_value(values, lhs),
            operand_value(values, rhs),
        ) {
            (Some(a), Some(b)) => Some((m, (a + b) % ty.modulus())),
            _ => None,
        },
        Instr::Sub { ty, lhs, rhs } => match (
            operand_value(values, lhs),
            operand_value(values, rhs),
        ) {
            (Some(a), Some(b)) => Some((m, (a - b) % ty.modulus())),
            _ => None,
        },
        Instr::ZeroExtend { value } => match operand_value(values, value) {
            Some(v) => Some((m, v)),
            None => None,
        },
        Instr::Truncate { value } => match operand_value(values, value) {
            Some(v) => Some((m, v % 0x100)),
            None => None,
        },
        Instr::WriteChar { value } => match operand_value(values, value) {
            Some(v) => Some(
                (Machine { output: m.output.push((v % 0x100) as u8), ..m }, v % 0x100),
            ),
            None => None,
        },
        Instr::ReadChar => Some(
            (Machine { input: after_read(m.input), ..m }, read_char(m.input)),
        ),
        Instr::CompareNe { lhs, rhs, .. } => match (
            operand_value(values, lhs),
            operand_value(values, rhs),
        ) {
            (Some(a), Some(b)) => Some((m, if a != b { 1int } else { 0int })),
            _ => None,
        },
        Instr::Jump { .. } => None,
        Instr::Branch { .. } => None,
        Instr::Return { .. } => None,
    }
}

/// One instruction on a frame: the machine changes as `step_instr` says and the
/// yielded value is remembered.
pub open spec fn step_frame(f: Frame, instr: Instr) -> Option<Frame> {
    match step_instr(f.machine, f.values, instr) {
        Some((machine, value)) => Some(Frame { machine, values: f.values.push(value) }),
        None => None,
    }
}

/// The first `count` instructions of `code`, run in order from `f`.
pub open spec fn run_prefix(f: Frame, code: Seq<Instr>, count: nat) -> Option<Frame>
    decreases count,
{
    if count == 0 {
        Some(f)
    } else {
        match run_prefix(f, code, (count - 1) as nat) {
            Some(g) => step_frame(g, code[count - 1]),
            None => None,
        }
    }
}

/// Straight-line code run from `f`: `None` where some step is undefined or the
/// code holds a terminator.
pub open spec fn run_code(f: Frame, code: Seq<Instr>) -> Option<Frame> {
    run_prefix(f, code, code.len())
}

/// A prefix of `a` runs alike in `a` and in `a` followed by `b`.
pub proof fn lemma_run_prefix_of_concat(f: Frame, a: Seq<Instr>, b: Seq<Instr>, count: nat)
    requires
        count <= a.len(),
    ensures
        run_prefix(f, a + b, count) == run_prefix(f, a, count),
    decreases count,
{
    if count > 0 {
        lemma_run_prefix_of_concat(f, a, b, (count - 1) as nat);
        assert((a + b)[count - 1] == a[count - 1]);
    }
}

/// Running `a` followed by `b` is running `a`, then `b` from where `a` ended.
pub proof fn lemma_run_concat(f: Frame, a: Seq<Instr>, b: Seq<Instr>)
    ensures
        run_code(f, a + b) == match run_code(f, a) {
            Some(g) => run_code(g, b),
            None => None,
        },
{
    lemma_run_concat_upto(f, a, b, b.len());
}

proof fn lemma_run_concat_upto(f: Frame, a: Seq<Instr>, b: Seq<Instr>, count: nat)
    requires
        count <= b.len(),
    ensures
        run_prefix(f, a + b, a.len() + count) == match run_code(f, a) {
            Some(g) => run_prefix(g, b, count),
            None => None,
        },
    decreases count,
{
    if count == 0 {
        lemma_run_prefix_of_concat(f, a, b, a.len());
    } else {
        lemma_run_concat_upto(f, a, b, (count - 1) as nat);
        assert((a + b)[a.len() + count - 1] == b[count - 1]);
    }
}

/// Where a running program stands.
pub struct Config {
    pub machine: Machine,
    /// The index of the current block.
    pub block: int,
    /// The index, in that block, of the instruction to run next.
    pub at: int,
    /// The results of the instructions of the block that have run.
    pub values: Seq<int>,
}

/// What has become of a program.
pub enum Outcome {
    /// It is still running.
    Running(Config),
    /// It has returned the 32-bit `status`, leaving `machine`.
    Exited { machine: Machine, status: int },
    /// It has taken a step that is undefined.
    Stuck,
}

/// The start of the entry routine, with `input` on standard input.
pub open spec fn initial_config(input: Seq<u8>) -> Config {
    Config { machine: initial_machine(input), block: 0, at: 0, values: Seq::empty() }
}

/// The start of block `block` on `machine`.
pub open spec fn at_block(machine: Machine, block: int) -> Config {
    Config { machine, block, at: 0, values: Seq::empty() }
}

/// One step of the program `blocks` from `c`.
pub open spec fn step(blocks: Seq<Seq<Instr>>, c: Config) -> Outcome {
    if 0 <= c.block < blocks.len() && 0 <= c.at < blocks[c.block].len() {
        match blocks[c.block][c.at] {
            Instr::Jump { target } => Outcome::Running(at_block(c.machine, target as int)),
            Instr::Branch { condition, if_true, if_false } => match operand_value(
                c.values,
                condition,
            ) {
                Some(bit) => Outcome::Running(
                    at_block(
                        c.machine,
                        if bit != 0 {
                            if_true as int
                        } else {
                            if_false as int
                        },
                    ),
                ),
                None => Outcome::Stuck,
            },
            Instr::Return { value } => match operand_value(c.values, value) {
                Some(status) => Outcome::Exited {
                    machine: c.machine,
                    status: status % 0x1_0000_0000,
                },
                None => Outcome::Stuck,
            },
            instr => match step_instr(c.machine, c.values, instr) {
                Some((machine, value)) => Outcome::Running(
                    Config { machine, block: c.block, at: c.at + 1, values: c.values.push(value) },
                ),
                None => Outcome::Stuck,
            },
        }
    } else {
        Outcome::Stuck
    }
}

/// At most `fuel` steps of the program `blocks` from `c`: where it stands then,
/// or how it ended before.
pub open spec fn run(blocks: Seq<Seq<Instr>>, c: Config, fuel: nat) -> Outcome
    decreases fuel,
{
    if fuel == 0 {
        Outcome::Running(c)
    } else {
        match step(blocks, c) {
            Outcome::Running(next) => run(blocks, next, (fuel - 1) as nat),
            ended => ended,
        }
    }
}

/// Running `first + second` steps is running `first` steps, then `second` more.
pub proof fn lemma_run_split(blocks: Seq<Seq<Instr>>, c: Config, first: nat, second: nat)
    ensures
        run(blocks, c, first + second) == match run(blocks, c, first) {
            Outcome::Running(d) => run(blocks, d, second),
            ended => ended,
        },
    decreases first,
{
    if first > 0 {
        match step(blocks, c) {
            Outcome::Running(next) => {
                lemma_run_split(blocks, next, (first - 1) as nat, second);
                assert(run(blocks, c, first + second) == run(
                    blocks,
                    next,
                    (first + second - 1) as nat,
                ));
            },
            _ => {},
        }
    }
}

/// One more step after `done` steps that left the program running.
pub proof fn lemma_run_one_more(blocks: Seq<Seq<Instr>>, begin: Config, done: nat, c: Config)
    requires
        run(blocks, begin, done) == Outcome::Running(c),
    ensures
        run(blocks, begin, done + 1) == step(blocks, c),
{
    lemma_run_split(blocks, begin, done, 1);
    assert(run(blocks, c, 1) == match step(blocks, c) {
        Outcome::Running(next) => run(blocks, next, 0),
        ended => ended,
    });
}

/// A program that has ended stays as it ended.
pub proof fn lemma_run_ended(blocks: Seq<Seq<Instr>>, begin: Config, done: nat, fuel: nat)
    requires
        !(run(blocks, begin, done) is Running),
        done <= fuel,
    ensures
        run(blocks, begin, fuel) == run(blocks, begin, done),
{
    lemma_run_split(blocks, begin, done, (fuel - done) as nat);
}

/// Whether `code` stands in block `c.block` of `blocks`, starting at `c.at`.
pub open spec fn code_ahead(blocks: Seq<Seq<Instr>>, c: Config, code: Seq<Instr>) -> bool {
    &&& 0 <= c.block < blocks.len()
    &&& 0 <= c.at
    &&& c.at + code.len() <= blocks[c.block].len()
    &&& forall|i: int| 0 <= i < code.len() ==> blocks[c.block][c.at + i] == #[trigger] code[i]
}

/// Where straight-line code stands ahead in the current block and is defined,
/// the program runs through it in as many steps as it has instructions.
pub proof fn lemma_run_through(blocks: Seq<Seq<Instr>>, c: Config, code: Seq<Instr>)
    requires
        code_ahead(blocks, c, code),
        run_code(Frame { machine: c.machine, values: c.values }, code) is Some,
    ensures
        run(blocks, c, code.len()) == Outcome::Running(
            Config {
                machine: run_code(Frame { machine: c.machine, values: c.values }, code)->0.machine,
                block: c.block,
                at: c.at + code.len(),
                values: run_code(Frame { machine: c.machine, values: c.values }, code)->0.values,
            },
        ),
{
    lemma_run_through_upto(blocks, c, code, code.len());
}

proof fn lemma_run_through_upto(blocks: Seq<Seq<Instr>>, c: Config, code: Seq<Instr>, count: nat)
    requires
        code_ahead(blocks, c, code),
        count <= code.len(),
        run_prefix(Frame { machine: c.machine, values: c.values }, code, count) is Some,
    ensures
        run(blocks, c, count) == Outcome::Running(
            Config {
                machine: run_prefix(
                    Frame { machine: c.machine, values: c.values },
                    code,
                    count,
                )->0.machine,
                block: c.block,
                at: c.at + count,
                values: run_prefix(
                    Frame { machine: c.machine, values: c.values },
                    code,
                    count,
                )->0.values,
            },
        ),
    decreases count,
{
    if count > 0 {
        let before = (count - 1) as nat;
        lemma_run_through_upto(blocks, c, code, before);
        lemma_run_split(blocks, c, before, 1);
        let d = run(blocks, c, before)->Running_0;
        assert(blocks[c.block][d.at] == code[count - 1]);
        assert(run(blocks, d, 1) == match step(blocks, d) {
            Outcome::Running(next) => run(blocks, next, 0),
            ended => ended,
        });
    }
}

/// Where straight-line code without a terminator stands ahead in the current
/// block and is undefined, the program gets stuck within it.
pub proof fn lemma_run_into_undefined(
    blocks: Seq<Seq<Instr>>,
    c: Config,
    code: Seq<Instr>,
) -> (fuel: nat)
    requires
        code_ahead(blocks, c, code),
        forall|i: int| 0 <= i < code.len() ==> !(#[trigger] code[i]).is_terminator(),
        run_code(Frame { machine: c.machine, values: c.values }, code) is None,
    ensures
        run(blocks, c, fuel) is Stuck,
        fuel <= code.len(),
{
    lemma_stuck_upto(blocks, c, code, code.len())
}

proof fn lemma_stuck_upto(
    blocks: Seq<Seq<Instr>>,
    c: Config,
    code: Seq<Instr>,
    count: nat,
) -> (fuel: nat)
    requires
        code_ahead(blocks, c, code),
        forall|i: int| 0 <= i < code.len() ==> !(#[trigger] code[i]).is_terminator(),
        count <= code.len(),
        run_prefix(Frame { machine: c.machine, values: c.values }, code, count) is None,
    ensures
        run(blocks, c, fuel) is Stuck,
        fuel <= count,
    decreases count,
{
    let f = Frame { machine: c.machine, values: c.values };
    let before = (count - 1) as nat;
    match run_prefix(f, code, before) {
        Some(g) => {
            lemma_run_through_upto(blocks, c, code, before);
            lemma_run_split(blocks, c, before, 1);
            let d = run(blocks, c, before)->Running_0;
            assert(blocks[c.block][d.at] == code[count - 1]);
            assert(!code[count - 1].is_terminator());
            assert(run(blocks, d, 1) == match step(blocks, d) {
                Outcome::Running(next) => run(blocks, next, 0),
                ended => ended,
            });
            count
        },
        None => lemma_stuck_upto(blocks, c, code, before),
    }
}

} // verus!
