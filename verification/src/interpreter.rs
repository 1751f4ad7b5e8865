//! An interpreter: it runs a program as the abstract machine does, one step of
//! the machine for each turn of its loop.

use vstd::prelude::*;
use vstd::slice::slice_to_vec;
use crate::ir::{Instr, IntTy, Operand, block_views};
use crate::machine::{
    Config, Machine, Outcome, Register, Tape, initial_config, lemma_run_ended, lemma_run_one_more,
    operand_value, run, step_instr,
};

verus! {

/// The pointer register of a running program.
#[derive(Clone, Copy, Debug, PartialEq, Eq, Structural)]
pub enum PointerSlot {
    /// Not reserved yet.
    Unreserved,
    /// Reserved, and never written.
    Undefined,
    /// Holding this bit pattern.
    Holding(u32),
}

/// The tape of a running program.
#[derive(Debug, PartialEq, Eq)]
pub enum TapeSlot {
    /// Not allocated yet.
    Unallocated,
    /// Allocated, with these cells.
    Live(Vec<u8>),
    /// Released.
    Released,
}

/// The state of a running program.
#[derive(Debug, PartialEq, Eq)]
pub struct Vm {
    pub pointer: PointerSlot,
    pub tape: TapeSlot,
    /// All of standard input.
    pub input: Vec<u8>,
    /// How many bytes of it have been read.
    pub read: usize,
    /// Standard output written so far.
    pub output: Vec<u8>,
}

impl View for Vm {
    type V = Machine;

    open spec fn view(&self) -> Machine {
        Machine {
            pointer: match self.pointer {
                PointerSlot::Unreserved => Register::Unreserved,
                PointerSlot::Undefined => Register::Undefined,
                PointerSlot::Holding(bits) => Register::Holding(bits as int),
            },
            tape: match self.tape {
                TapeSlot::Unallocated => Tape::Unallocated,
                TapeSlot::Live(cells) => Tape::Live(cells@),
                TapeSlot::Released => Tape::Released,
            },
            input: self.input@.skip(self.read as int),
            output: self.output@,
        }
    }
}

impl Vm {
    /// Whether no more has been read than there is.
    pub open spec fn wf(&self) -> bool {
        self.read <= self.input@.len()
    }
}

/// How a run ended.
#[derive(Clone, Copy, Debug, PartialEq, Eq, Structural)]
pub enum Halt {
    /// The entry routine returned this status.
    Exited { status: u32 },
    /// The next step is undefined.
    Stuck,
    /// The steps allowed were used up.
    OutOfFuel,
    /// The next step allocates a tape of more bytes than the interpreter may hold.
    TapeTooLarge,
}

/// A run: how it ended, and the machine it left.
#[derive(Debug, PartialEq, Eq)]
pub struct Execution {
    pub halt: Halt,
    pub machine: Vm,
}

/// Whether the program at `c` is about to allocate a tape of more than `limit` bytes.
pub open spec fn oversized_ahead(blocks: Seq<Seq<Instr>>, c: Config, limit: usize) -> bool {
    &&& 0 <= c.block < blocks.len()
    &&& 0 <= c.at < blocks[c.block].len()
    &&& oversized(c.machine, c.values, blocks[c.block][c.at], limit)
}

/// Whether `instr` allocates a tape of more than `limit` bytes.
pub open spec fn oversized(m: Machine, values: Seq<int>, instr: Instr, limit: usize) -> bool {
    &&& m.tape is Unallocated
    &&& instr matches Instr::AllocateTape { count, size }
    &&& operand_value(values, count) matches Some(c)
    &&& operand_value(values, size) matches Some(s)
    &&& c >= 0
    &&& s >= 0
    &&& c * s > limit
}

/// Whether `r` is what running `blocks` on `input` for at most `fuel` steps
/// comes to, for an interpreter that may hold a tape of `tape_limit` bytes.
pub open spec fn executed(
    blocks: Seq<Seq<Instr>>,
    input: Seq<u8>,
    tape_limit: usize,
    fuel: u64,
    r: Execution,
) -> bool {
    let begin = initial_config(input);
    match r.halt {
        Halt::Exited { status } => run(blocks, begin, fuel as nat) == (Outcome::Exited {
            machine: r.machine@,
            status: status as int,
        }),
        Halt::Stuck => run(blocks, begin, fuel as nat) is Stuck,
        Halt::OutOfFuel => {
            &&& run(blocks, begin, fuel as nat) matches Outcome::Running(c)
            &&& c.machine == r.machine@
        },
        Halt::TapeTooLarge => exists|done: nat|
            {
                &&& done < fuel
                &&& (#[trigger] run(blocks, begin, done)) matches Outcome::Running(c)
                &&& c.machine == r.machine@
                &&& oversized_ahead(blocks, c, tape_limit)
            },
    }
}

/// The range of the values that instructions yield.
pub open spec fn value_ok(v: i128) -> bool {
    -0x8000_0000 <= v < 0x1_0000_0000_0000_0000
}

/// Whether every value is in range.
pub open spec fn values_ok(values: Seq<i128>) -> bool {
    forall|i: int| 0 <= i < values.len() ==> value_ok(#[trigger] values[i])
}

/// The values as mathematical integers.
pub open spec fn ints(values: Seq<i128>) -> Seq<int> {
    values.map_values(|v: i128| v as int)
}

/// The value of an operand.
fn operand(values: &Vec<i128>, op: Operand) -> (r: Option<i128>)
    requires
        values_ok(values@),
    ensures
        match r {
            Some(v) => operand_value(ints(values@), op) == Some(v as int) && value_ok(v),
            None => operand_value(ints(values@), op) is None,
        },
{
    match op {
        Operand::Const(_, value) => Some(value as i128),
        Operand::Back(distance) => {
            if 1 <= distance && distance <= values.len() {
                Some(values[values.len() - distance])
            } else {
                None
            }
        },
    }
}

/// `x` modulo the number of values of width `ty`.
fn wrap(ty: IntTy, x: i128) -> (r: i128)
    requires
        -0x4_0000_0000_0000_0000 <= x <= 0x4_0000_0000_0000_0000,
    ensures
        r == (x as int) % ty.modulus(),
        0 <= r < ty.modulus(),
{
    let lifted: u128 = (x + 0x8_0000_0000_0000_0000) as u128;
    let wrapped: u128 = match ty {
        IntTy::I1 => lifted % 2,
        IntTy::I8 => lifted % 0x100,
        IntTy::I32 => lifted % 0x1_0000_0000,
        IntTy::Size => lifted % 0x1_0000_0000_0000_0000,
    };
    wrapped as i128
}

/// What one instruction that ends no block came to.
enum Stepped {
    /// It yielded this value.
    Value(i128),
    /// It is undefined.
    Undefined,
    /// It asked for a tape that is too large.
    TooLarge,
}

/// A tape of `bytes` zeroed cells.
fn zeroed(bytes: usize) -> (r: Vec<u8>)
    ensures
        r@ == Seq::new(bytes as nat, |i: int| 0u8),
{
    let mut cells: Vec<u8> = Vec::new();
    let mut filled: usize = 0;
    while filled < bytes
        invariant
            filled <= bytes,
            cells@ == Seq::new(filled as nat, |i: int| 0u8),
        decreases bytes - filled,
    {
        cells.push(0);
        filled = filled + 1;
        proof {
            assert(cells@ =~= Seq::new(filled as nat, |i: int| 0u8));
        }
    }
    cells
}

/// Whether `r` is what one instruction that ends no block comes to on `vm`.
spec fn stepped(
    vm: Vm,
    values: Seq<i128>,
    instr: Instr,
    tape_limit: usize,
    r: (Vm, Stepped),
) -> bool {
    &&& r.0.wf()
    &&& r.0.input@ == vm.input@
    &&& match r.1 {
        Stepped::Value(v) => step_instr(vm@, ints(values), instr) == Some((r.0@, v as int))
            && value_ok(v),
        Stepped::Undefined => step_instr(vm@, ints(values), instr) is None && r.0@ == vm@,
        Stepped::TooLarge => oversized(vm@, ints(values), instr, tape_limit) && r.0@ == vm@,
    }
}

/// An instruction on the pointer register.
fn step_pointer(vm: Vm, values: &Vec<i128>, instr: Instr, tape_limit: usize) -> (r: (Vm, Stepped))
    requires
        vm.wf(),
        values_ok(values@),
        instr is ReservePointer || instr is StorePointer || instr is LoadPointer,
    ensures
        stepped(vm, values@, instr, tape_limit, r),
{
    let Vm { pointer, tape, input, read, output } = vm;
    match instr {
        Instr::ReservePointer => match pointer {
            PointerSlot::Unreserved => (
                Vm { pointer: PointerSlot::Undefined, tape, input, read, output },
                Stepped::Value(0),
            ),
            _ => (Vm { pointer, tape, input, read, output }, Stepped::Undefined),
        },
        Instr::StorePointer { value } => match (operand(values, value), pointer) {
            (None, _) | (_, PointerSlot::Unreserved) => (
                Vm { pointer, tape, input, read, output },
                Stepped::Undefined,
            ),
            (Some(v), _) => {
                let bits = wrap(IntTy::I32, v) as u32;
                (
                    Vm { pointer: PointerSlot::Holding(bits), tape, input, read, output },
                    Stepped::Value(0),
                )
            },
        },
        _ => match pointer {
            PointerSlot::Holding(bits) => (
                Vm { pointer, tape, input, read, output },
                Stepped::Value(bits as i128),
            ),
            _ => (Vm { pointer, tape, input, read, output }, Stepped::Undefined),
        },
    }
}

/// An instruction that allocates or releases the tape.
fn step_allocation(vm: Vm, values: &Vec<i128>, instr: Instr, tape_limit: usize) -> (r: (
    Vm,
    Stepped,
))
    requires
        vm.wf(),
        values_ok(values@),
        instr is AllocateTape || instr is ReleaseTape,
    ensures
        stepped(vm, values@, instr, tape_limit, r),
{
    let Vm { pointer, tape, input, read, output } = vm;
    match instr {
        Instr::AllocateTape { count, size } => match (
            operand(values, count),
            operand(values, size),
            tape,
        ) {
            (Some(c), Some(s), TapeSlot::Unallocated) => {
                if c < 0 || s < 0 {
                    (
                        Vm { pointer, tape: TapeSlot::Unallocated, input, read, output },
                        Stepped::Undefined,
                    )
                } else {
                    assert(c * s <= 0xFFFF_FFFF_FFFF_FFFF * 0xFFFF_FFFF_FFFF_FFFF) by (
                        nonlinear_arith)
                        requires
                            0 <= c <= 0xFFFF_FFFF_FFFF_FFFF,
                            0 <= s <= 0xFFFF_FFFF_FFFF_FFFF,
                    ;
                    let bytes: u128 = (c as u128) * (s as u128);
                    if bytes > tape_limit as u128 {
                        (
                            Vm { pointer, tape: TapeSlot::Unallocated, input, read, output },
                            Stepped::TooLarge,
                        )
                    } else {
                        let cells = zeroed(bytes as usize);
                        (
                            Vm { pointer, tape: TapeSlot::Live(cells), input, read, output },
                            Stepped::Value(0),
                        )
                    }
                }
            },
            (_, _, tape) => (Vm { pointer, tape, input, read, output }, Stepped::Undefined),
        },
        _ => match tape {
            TapeSlot::Live(_) => (
                Vm { pointer, tape: TapeSlot::Released, input, read, output },
                Stepped::Value(0),
            ),
            tape => (Vm { pointer, tape, input, read, output }, Stepped::Undefined),
        },
    }
}

/// An instruction on a cell of the tape.
fn step_cell(vm: Vm, values: &Vec<i128>, instr: Instr, tape_limit: usize) -> (r: (Vm, Stepped))
    requires
        vm.wf(),
        values_ok(values@),
        instr is CellAddress || instr is LoadCell || instr is StoreCell,
    ensures
        stepped(vm, values@, instr, tape_limit, r),
{
    let Vm { pointer, tape, input, read, output } = vm;
    match instr {
        Instr::CellAddress { index } => match (operand(values, index), tape) {
            (Some(bits), TapeSlot::Live(cells)) => {
                let address = if bits >= 0x8000_0000 {
                    bits - 0x1_0000_0000
                } else {
                    bits
                };
                (
                    Vm { pointer, tape: TapeSlot::Live(cells), input, read, output },
                    Stepped::Value(address),
                )
            },
            (_, tape) => (Vm { pointer, tape, input, read, output }, Stepped::Undefined),
        },
        Instr::LoadCell { address } => match (operand(values, address), tape) {
            (Some(a), TapeSlot::Live(cells)) => {
                if 0 <= a && a < cells.len() as i128 {
                    let value = cells[a as usize];
                    (
                        Vm { pointer, tape: TapeSlot::Live(cells), input, read, output },
                        Stepped::Value(value as i128),
                    )
                } else {
                    (
                        Vm { pointer, tape: TapeSlot::Live(cells), input, read, output },
                        Stepped::Undefined,
                    )
                }
            },
            (_, tape) => (Vm { pointer, tape, input, read, output }, Stepped::Undefined),
        },
        Instr::StoreCell { address, value } => match (
            operand(values, address),
            operand(values, value),
            tape,
        ) {
            (Some(a), Some(v), TapeSlot::Live(cells)) => {
                if 0 <= a && a < cells.len() as i128 {
                    let mut cells = cells;
                    let byte = wrap(IntTy::I8, v) as u8;
                    cells.set(a as usize, byte);
                    (
                        Vm { pointer, tape: TapeSlot::Live(cells), input, read, output },
                        Stepped::Value(0),
                    )
                } else {
                    (
                        Vm { pointer, tape: TapeSlot::Live(cells), input, read, output },
                        Stepped::Undefined,
                    )
                }
            },
            (_, _, tape) => (Vm { pointer, tape, input, read, output }, Stepped::Undefined),
        },
        _ => (Vm { pointer, tape, input, read, output }, Stepped::Undefined),
    }
}

/// An instruction that reads standard input or writes standard output.
fn step_io(vm: Vm, values: &Vec<i128>, instr: Instr, tape_limit: usize) -> (r: (Vm, Stepped))
    requires
        vm.wf(),
        values_ok(values@),
        instr is WriteChar || instr is ReadChar,
    ensures
        stepped(vm, values@, instr, tape_limit, r),
{
    let Vm { pointer, tape, input, read, output } = vm;
    match instr {
        Instr::WriteChar { value } => match operand(values, value) {
            Some(v) => {
                let byte = wrap(IntTy::I8, v);
                let mut output = output;
                output.push(byte as u8);
                (Vm { pointer, tape, input, read, output }, Stepped::Value(byte))
            },
            None => (Vm { pointer, tape, input, read, output }, Stepped::Undefined),
        },
        _ => {
            if read < input.len() {
                let byte = input[read];
                proof {
                    assert(input@.skip(read as int).drop_first() =~= input@.skip(read + 1));
                }
                (
                    Vm { pointer, tape, input, read: read + 1, output },
                    Stepped::Value(byte as i128),
                )
            } else {
                (Vm { pointer, tape, input, read, output }, Stepped::Value(0xFFFF_FFFF))
            }
        },
    }
}

/// An instruction that computes a value from values.
fn step_value(vm: Vm, values: &Vec<i128>, instr: Instr, tape_limit: usize) -> (r: (Vm, Stepped))
    requires
        vm.wf(),
        values_ok(values@),
        instr is Add || instr is Sub || instr is ZeroExtend || instr is Truncate
            || instr is CompareNe,
    ensures
        stepped(vm, values@, instr, tape_limit, r),
{
    let computed = match instr {
        Instr::Add { ty, lhs, rhs } => match (operand(values, lhs), operand(values, rhs)) {
            (Some(a), Some(b)) => Some(wrap(ty, a + b)),
            _ => None,
        },
        Instr::Sub { ty, lhs, rhs } => match (operand(values, lhs), operand(values, rhs)) {
            (Some(a), Some(b)) => Some(wrap(ty, a - b)),
            _ => None,
        },
        Instr::ZeroExtend { value } => operand(values, value),
        Instr::Truncate { value } => match operand(values, value) {
            Some(v) => Some(wrap(IntTy::I8, v)),
            None => None,
        },
        Instr::CompareNe { ty: _, lhs, rhs } => match (operand(values, lhs), operand(values, rhs)) {
            (Some(a), Some(b)) => Some(
                if a != b {
                    1
                } else {
                    0
                },
            ),
            _ => None,
        },
        _ => None,
    };
    match computed {
        Some(v) => (vm, Stepped::Value(v)),
        None => (vm, Stepped::Undefined),
    }
}

/// One instruction that ends no block.
fn step_vm(vm: Vm, values: &Vec<i128>, instr: Instr, tape_limit: usize) -> (r: (Vm, Stepped))
    requires
        vm.wf(),
        values_ok(values@),
        !instr.is_terminator(),
    ensures
        stepped(vm, values@, instr, tape_limit, r),
{
    match instr {
        Instr::ReservePointer | Instr::StorePointer { .. } | Instr::LoadPointer => step_pointer(
            vm,
            values,
            instr,
            tape_limit,
        ),
        Instr::AllocateTape { .. } | Instr::ReleaseTape => step_allocation(
            vm,
            values,
            instr,
            tape_limit,
        ),
        Instr::CellAddress { .. } | Instr::LoadCell { .. } | Instr::StoreCell { .. } => step_cell(
            vm,
            values,
            instr,
            tape_limit,
        ),
        Instr::WriteChar { .. } | Instr::ReadChar => step_io(vm, values, instr, tape_limit),
        _ => step_value(vm, values, instr, tape_limit),
    }
}

/// Runs the entry routine of `blocks` with `input` on standard input, for at
/// most `fuel` steps. A tape of more than `tape_limit` bytes is not allocated:
/// the run ends before the allocation.
pub fn execute(blocks: &Vec<Vec<Instr>>, input: &[u8], tape_limit: usize, fuel: u64) -> (r:
    Execution)
    ensures
        executed(block_views(blocks@), input@, tape_limit, fuel, r),
{
    let ghost program = block_views(blocks@);
    let ghost begin = initial_config(input@);
    let mut vm = Vm {
        pointer: PointerSlot::Unreserved,
        tape: TapeSlot::Unallocated,
        input: slice_to_vec(input),
        read: 0,
        output: Vec::new(),
    };
    let mut block: usize = 0;
    let mut at: usize = 0;
    let mut values: Vec<i128> = Vec::new();
    let mut done: u64 = 0;
    proof {
        assert(vm.input@.skip(0) =~= input@);
        assert(ints(values@) =~= Seq::<int>::empty());
    }
    while done < fuel
        invariant
            done <= fuel,
            program == block_views(blocks@),
            begin == initial_config(input@),
            vm.wf(),
            values_ok(values@),
            run(program, begin, done as nat) == Outcome::Running(
                Config { machine: vm@, block: block as int, at: at as int, values: ints(values@) },
            ),
        decreases fuel - done,
    {
        let ghost here = Config {
            machine: vm@,
            block: block as int,
            at: at as int,
            values: ints(values@),
        };
        proof {
            lemma_run_one_more(program, begin, done as nat, here);
        }
        if block >= blocks.len() || at >= blocks[block].len() {
            proof {
                lemma_run_ended(program, begin, (done + 1) as nat, fuel as nat);
            }
            return Execution { halt: Halt::Stuck, machine: vm };
        }
        let instr = blocks[block][at];
        match instr {
            Instr::Jump { target } => {
                block = target;
                at = 0;
                values = Vec::new();
                proof {
                    assert(ints(values@) =~= Seq::<int>::empty());
                }
            },
            Instr::Branch { condition, if_true, if_false } => match operand(&values, condition) {
                Some(bit) => {
                    block = if bit != 0 {
                        if_true
                    } else {
                        if_false
                    };
                    at = 0;
                    values = Vec::new();
                    proof {
                        assert(ints(values@) =~= Seq::<int>::empty());
                    }
                },
                None => {
                    proof {
                        lemma_run_ended(program, begin, (done + 1) as nat, fuel as nat);
                    }
                    return Execution { halt: Halt::Stuck, machine: vm };
                },
            },
            Instr::Return { value } => match operand(&values, value) {
                Some(status) => {
                    proof {
                        lemma_run_ended(program, begin, (done + 1) as nat, fuel as nat);
                    }
                    return Execution {
                        halt: Halt::Exited { status: wrap(IntTy::I32, status) as u32 },
                        machine: vm,
                    };
                },
                None => {
                    proof {
                        lemma_run_ended(program, begin, (done + 1) as nat, fuel as nat);
                    }
                    return Execution { halt: Halt::Stuck, machine: vm };
                },
            },
            _ => {
                let (next, stepped) = step_vm(vm, &values, instr, tape_limit);
                vm = next;
                match stepped {
                    Stepped::Value(v) => {
                        let ghost before = ints(values@);
                        values.push(v);
                        at = at + 1;
                        proof {
                            assert(ints(values@) =~= before.push(v as int));
                        }
                    },
                    Stepped::Undefined => {
                        proof {
                            lemma_run_ended(program, begin, (done + 1) as nat, fuel as nat);
                        }
                        return Execution { halt: Halt::Stuck, machine: vm };
                    },
                    Stepped::TooLarge => {
                        proof {
                            assert(oversized_ahead(program, here, tape_limit));
                            assert(run(program, begin, done as nat) == Outcome::Running(here));
                        }
                        return Execution { halt: Halt::TapeTooLarge, machine: vm };
                    },
                }
            },
        }
        done = done + 1;
    }
    Execution { halt: Halt::OutOfFuel, machine: vm }
}

} // verus!
