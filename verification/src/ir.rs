//! The program representation: typed low-level instructions grouped into blocks.
//!
//! A program is a list of blocks; a block is a list of instructions that ends in
//! a jump, a branch or a return. An instruction names the values it works on by
//! their distance: `Operand::Back(1)` is the result of the instruction just
//! before it in the same block. Two storage locations are implicit in the
//! instructions that touch them: the pointer register and the tape.

use vstd::prelude::*;

verus! {

/// The width of an integer value.
#[derive(Clone, Copy, Debug, PartialEq, Eq, Structural)]
pub enum IntTy {
    /// One bit: the result of a comparison.
    I1,
    /// Eight bits: a tape cell.
    I8,
    /// Thirty-two bits: the pointer register and character codes.
    I32,
    /// The width of an address on the target: byte counts.
    Size,
}

impl IntTy {
    /// The number of distinct values of this width. Addresses are read as 64 bits wide.
    pub open spec fn modulus(self) -> int {
        match self {
            IntTy::I1 => 2,
            IntTy::I8 => 0x100,
            IntTy::I32 => 0x1_0000_0000,
            IntTy::Size => 0x1_0000_0000_0000_0000,
        }
    }
}

/// The type of a value that an instruction yields.
#[derive(Clone, Copy, Debug, PartialEq, Eq, Structural)]
pub enum ValueTy {
    /// An integer of the given width.
    Int(IntTy),
    /// The address of a tape cell.
    Address,
}

/// What an instruction works on.
#[derive(Clone, Copy, Debug, PartialEq, Eq, Structural)]
pub enum Operand {
    /// The result of the instruction that stands this many places before the
    /// using instruction in the same block (1 is the instruction just before).
    Back(usize),
    /// An integer constant of the given width.
    Const(IntTy, u64),
}

/// One low-level operation.
#[derive(Clone, Copy, Debug, PartialEq, Eq, Structural)]
pub enum Instr {
    /// Reserves the pointer register, a 32-bit slot on the stack. Its content is
    /// undefined until the first store.
    ReservePointer,
    /// Writes a 32-bit value into the pointer register.
    StorePointer { value: Operand },
    /// Reads the pointer register; yields a 32-bit value.
    LoadPointer,
    /// Calls `calloc(count, size)`: the tape becomes `count * size` zeroed bytes.
    AllocateTape { count: Operand, size: Operand },
    /// Calls `free` on the tape.
    ReleaseTape,
    /// Computes the address of the cell at tape base plus `index`, a signed
    /// 32-bit value; yields an address.
    CellAddress { index: Operand },
    /// Reads the byte at `address`; yields an 8-bit value.
    LoadCell { address: Operand },
    /// Writes the 8-bit `value` to the byte at `address`.
    StoreCell { address: Operand, value: Operand },
    /// Wrapping addition at width `ty`.
    Add { ty: IntTy, lhs: Operand, rhs: Operand },
    /// Wrapping subtraction at width `ty`.
    Sub { ty: IntTy, lhs: Operand, rhs: Operand },
    /// Widens an 8-bit value to 32 bits, filling with zeros.
    ZeroExtend { value: Operand },
    /// Narrows a 32-bit value to its low 8 bits.
    Truncate { value: Operand },
    /// Calls `putchar(value)`: writes one character code to standard output.
    WriteChar { value: Operand },
    /// Calls `getchar()`: reads one character code from standard input; yields a
    /// 32-bit value.
    ReadChar,
    /// Compares two values of width `ty`; yields one bit, set when they differ.
    CompareNe { ty: IntTy, lhs: Operand, rhs: Operand },
    /// Continues at the start of block `target`.
    Jump { target: usize },
    /// Continues at block `if_true` when the one-bit `condition` is set, at
    /// block `if_false` otherwise.
    Branch { condition: Operand, if_true: usize, if_false: usize },
    /// Leaves the entry routine with a 32-bit status.
    Return { value: Operand },
}

impl Instr {
    /// Whether the instruction ends a block.
    pub open spec fn is_terminator(self) -> bool {
        self is Jump || self is Branch || self is Return
    }

    /// The type of the value that the instruction yields, if it yields one that
    /// later instructions can name.
    pub open spec fn result_ty(self) -> Option<ValueTy> {
        match self {
            Instr::LoadPointer => Some(ValueTy::Int(IntTy::I32)),
            Instr::CellAddress { .. } => Some(ValueTy::Address),
            Instr::LoadCell { .. } => Some(ValueTy::Int(IntTy::I8)),
            Instr::Add { ty, .. } => Some(ValueTy::Int(ty)),
            Instr::Sub { ty, .. } => Some(ValueTy::Int(ty)),
            Instr::ZeroExtend { .. } => Some(ValueTy::Int(IntTy::I32)),
            Instr::Truncate { .. } => Some(ValueTy::Int(IntTy::I8)),
            Instr::WriteChar { .. } => Some(ValueTy::Int(IntTy::I32)),
            Instr::ReadChar => Some(ValueTy::Int(IntTy::I32)),
            Instr::CompareNe { .. } => Some(ValueTy::Int(IntTy::I1)),
            _ => None,
        }
    }

    /// Whether every jump and branch target of the instruction is one of the
    /// first `count` blocks.
    pub open spec fn targets_below(self, count: int) -> bool {
        match self {
            Instr::Jump { target } => target < count,
            Instr::Branch { if_true, if_false, .. } => if_true < count && if_false < count,
            _ => true,
        }
    }
}

/// The instruction sequences of `blocks`.
pub open spec fn block_views(blocks: Seq<Vec<Instr>>) -> Seq<Seq<Instr>> {
    Seq::new(blocks.len(), |i: int| blocks[i]@)
}

/// Whether `operand`, used by the instruction at place `at` of `block`, has type
/// `ty`: a constant must be of that width and fit it, a distance must reach an
/// instruction before it in the block that yields that type.
pub open spec fn operand_ok(block: Seq<Instr>, at: int, operand: Operand, ty: ValueTy) -> bool {
    match operand {
        Operand::Const(width, value) => ty == ValueTy::Int(width) && value < width.modulus(),
        Operand::Back(distance) => 1 <= distance <= at && block[at - distance].result_ty() == Some(
            ty,
        ),
    }
}

/// Whether every operand of the instruction at place `at` of `block` is well typed.
pub open spec fn instr_ok(block: Seq<Instr>, at: int) -> bool {
    match block[at] {
        Instr::StorePointer { value } => operand_ok(block, at, value, ValueTy::Int(IntTy::I32)),
        Instr::AllocateTape { count, size } => {
            &&& operand_ok(block, at, count, ValueTy::Int(IntTy::Size))
            &&& operand_ok(block, at, size, ValueTy::Int(IntTy::Size))
        },
        Instr::CellAddress { index } => operand_ok(block, at, index, ValueTy::Int(IntTy::I32)),
        Instr::LoadCell { address } => operand_ok(block, at, address, ValueTy::Address),
        Instr::StoreCell { address, value } => {
            &&& operand_ok(block, at, address, ValueTy::Address)
            &&& operand_ok(block, at, value, ValueTy::Int(IntTy::I8))
        },
        Instr::Add { ty, lhs, rhs } => {
            &&& operand_ok(block, at, lhs, ValueTy::Int(ty))
            &&& operand_ok(block, at, rhs, ValueTy::Int(ty))
        },
        Instr::Sub { ty, lhs, rhs } => {
            &&& operand_ok(block, at, lhs, ValueTy::Int(ty))
            &&& operand_ok(block, at, rhs, ValueTy::Int(ty))
        },
        Instr::ZeroExtend { value } => operand_ok(block, at, value, ValueTy::Int(IntTy::I8)),
        Instr::Truncate { value } => operand_ok(block, at, value, ValueTy::Int(IntTy::I32)),
        Instr::WriteChar { value } => operand_ok(block, at, value, ValueTy::Int(IntTy::I32)),
        Instr::CompareNe { ty, lhs, rhs } => {
            &&& operand_ok(block, at, lhs, ValueTy::Int(ty))
            &&& operand_ok(block, at, rhs, ValueTy::Int(ty))
        },
        Instr::Branch { condition, .. } => operand_ok(
            block,
            at,
            condition,
            ValueTy::Int(IntTy::I1),
        ),
        Instr::Return { value } => operand_ok(block, at, value, ValueTy::Int(IntTy::I32)),
        _ => true,
    }
}

/// Whether `block` is complete: it is not empty, its last instruction is its only
/// terminator, and every operand in it is well typed.
pub open spec fn block_ok(block: Seq<Instr>) -> bool {
    &&& block.len() > 0
    &&& block.last().is_terminator()
    &&& forall|i: int| 0 <= i < block.len() - 1 ==> !(#[trigger] block[i]).is_terminator()
    &&& forall|i: int| 0 <= i < block.len() ==> #[trigger] instr_ok(block, i)
}

/// Whether `blocks` is a well-formed routine: there is an entry block, every
/// block is complete, and every jump and branch leads to a block that exists.
pub open spec fn blocks_ok(blocks: Seq<Seq<Instr>>) -> bool {
    &&& blocks.len() > 0
    &&& forall|b: int| 0 <= b < blocks.len() ==> #[trigger] block_ok(blocks[b])
    &&& forall|b: int, i: int|
        0 <= b < blocks.len() && 0 <= i < blocks[b].len() ==> (
        #[trigger] blocks[b][i]).targets_below(blocks.len() as int)
}

impl IntTy {
    /// Whether `value` fits this width.
    fn holds(self, value: u64) -> (r: bool)
        ensures
            r == (value < self.modulus()),
    {
        match self {
            IntTy::I1 => value < 2,
            IntTy::I8 => value < 0x100,
            IntTy::I32 => value < 0x1_0000_0000,
            IntTy::Size => true,
        }
    }
}

impl Instr {
    /// Whether the instruction ends a block.
    fn ends_block(self) -> (r: bool)
        ensures
            r == self.is_terminator(),
    {
        match self {
            Instr::Jump { .. } | Instr::Branch { .. } | Instr::Return { .. } => true,
            _ => false,
        }
    }

    /// The type of the value that the instruction yields.
    fn yields(self) -> (r: Option<ValueTy>)
        ensures
            r == self.result_ty(),
    {
        match self {
            Instr::LoadPointer => Some(ValueTy::Int(IntTy::I32)),
            Instr::CellAddress { .. } => Some(ValueTy::Address),
            Instr::LoadCell { .. } => Some(ValueTy::Int(IntTy::I8)),
            Instr::Add { ty, .. } => Some(ValueTy::Int(ty)),
            Instr::Sub { ty, .. } => Some(ValueTy::Int(ty)),
            Instr::ZeroExtend { .. } => Some(ValueTy::Int(IntTy::I32)),
            Instr::Truncate { .. } => Some(ValueTy::Int(IntTy::I8)),
            Instr::WriteChar { .. } => Some(ValueTy::Int(IntTy::I32)),
            Instr::ReadChar => Some(ValueTy::Int(IntTy::I32)),
            Instr::CompareNe { .. } => Some(ValueTy::Int(IntTy::I1)),
            _ => None,
        }
    }

    /// Whether every target of the instruction is one of the first `count` blocks.
    fn targets_exist(self, count: usize) -> (r: bool)
        ensures
            r == self.targets_below(count as int),
    {
        match self {
            Instr::Jump { target } => target < count,
            Instr::Branch { if_true, if_false, .. } => if_true < count && if_false < count,
            _ => true,
        }
    }
}

/// Whether `operand`, used at place `at` of `block`, has type `ty`.
fn operand_well_typed(block: &Vec<Instr>, at: usize, operand: Operand, ty: ValueTy) -> (r: bool)
    requires
        at < block.len(),
    ensures
        r == operand_ok(block@, at as int, operand, ty),
{
    match operand {
        Operand::Const(width, value) => ty == ValueTy::Int(width) && width.holds(value),
        Operand::Back(distance) => {
            if 1 <= distance && distance <= at {
                match block[at - distance].yields() {
                    Some(yielded) => yielded == ty,
                    None => false,
                }
            } else {
                false
            }
        },
    }
}

/// Whether every operand of the instruction at place `at` of `block` is well typed.
fn instr_well_typed(block: &Vec<Instr>, at: usize) -> (r: bool)
    requires
        at < block.len(),
    ensures
        r == instr_ok(block@, at as int),
{
    let int8 = ValueTy::Int(IntTy::I8);
    let int32 = ValueTy::Int(IntTy::I32);
    let size_ty = ValueTy::Int(IntTy::Size);
    match block[at] {
        Instr::StorePointer { value } => operand_well_typed(block, at, value, int32),
        Instr::AllocateTape { count, size } => operand_well_typed(block, at, count, size_ty)
            && operand_well_typed(block, at, size, size_ty),
        Instr::CellAddress { index } => operand_well_typed(block, at, index, int32),
        Instr::LoadCell { address } => operand_well_typed(block, at, address, ValueTy::Address),
        Instr::StoreCell { address, value } => operand_well_typed(
            block,
            at,
            address,
            ValueTy::Address,
        ) && operand_well_typed(block, at, value, int8),
        Instr::Add { ty, lhs, rhs } => operand_well_typed(block, at, lhs, ValueTy::Int(ty))
            && operand_well_typed(block, at, rhs, ValueTy::Int(ty)),
        Instr::Sub { ty, lhs, rhs } => operand_well_typed(block, at, lhs, ValueTy::Int(ty))
            && operand_well_typed(block, at, rhs, ValueTy::Int(ty)),
        Instr::ZeroExtend { value } => operand_well_typed(block, at, value, int8),
        Instr::Truncate { value } => operand_well_typed(block, at, value, int32),
        Instr::WriteChar { value } => operand_well_typed(block, at, value, int32),
        Instr::CompareNe { ty, lhs, rhs } => operand_well_typed(block, at, lhs, ValueTy::Int(ty))
            && operand_well_typed(block, at, rhs, ValueTy::Int(ty)),
        Instr::Branch { condition, .. } => operand_well_typed(
            block,
            at,
            condition,
            ValueTy::Int(IntTy::I1),
        ),
        Instr::Return { value } => operand_well_typed(block, at, value, int32),
        _ => true,
    }
}

/// Whether `block` is complete.
fn block_well_formed(block: &Vec<Instr>) -> (r: bool)
    ensures
        r == block_ok(block@),
{
    let len = block.len();
    if len == 0 {
        return false;
    }
    if !block[len - 1].ends_block() {
        return false;
    }
    let mut at: usize = 0;
    while at < len
        invariant
            len == block.len(),
            len > 0,
            at <= len,
            block@.last().is_terminator(),
            forall|i: int| 0 <= i < at && i < len - 1 ==> !(#[trigger] block@[i]).is_terminator(),
            forall|i: int| 0 <= i < at ==> #[trigger] instr_ok(block@, i),
        decreases len - at,
    {
        if at < len - 1 && block[at].ends_block() {
            return false;
        }
        if !instr_well_typed(block, at) {
            return false;
        }
        at = at + 1;
    }
    true
}

/// Whether every jump and branch of `block` leads to one of the first `count` blocks.
fn block_targets_exist(block: &Vec<Instr>, count: usize) -> (r: bool)
    ensures
        r == forall|i: int| 0 <= i < block@.len() ==> (#[trigger] block@[i]).targets_below(
            count as int,
        ),
{
    let mut at: usize = 0;
    while at < block.len()
        invariant
            at <= block.len(),
            forall|i: int| 0 <= i < at ==> (#[trigger] block@[i]).targets_below(count as int),
        decreases block.len() - at,
    {
        if !block[at].targets_exist(count) {
            return false;
        }
        at = at + 1;
    }
    true
}

/// Whether `blocks` is a well-formed routine: whether a backend can take it.
pub fn well_formed(blocks: &Vec<Vec<Instr>>) -> (r: bool)
    ensures
        r == blocks_ok(block_views(blocks@)),
{
    let ghost views = block_views(blocks@);
    let count = blocks.len();
    if count == 0 {
        return false;
    }
    let mut b: usize = 0;
    while b < count
        invariant
            count == blocks.len(),
            views == block_views(blocks@),
            b <= count,
            forall|k: int| 0 <= k < b ==> #[trigger] block_ok(views[k]),
            forall|k: int, i: int|
                0 <= k < b && 0 <= i < views[k].len() ==> (#[trigger] views[k][i]).targets_below(
                    count as int,
                ),
        decreases count - b,
    {
        if !block_well_formed(&blocks[b]) {
            assert(!block_ok(views[b as int]));
            return false;
        }
        if !block_targets_exist(&blocks[b], count) {
            assert(views[b as int] == blocks@[b as int]@);
            return false;
        }
        b = b + 1;
    }
    true
}

} // verus!
