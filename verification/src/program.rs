//! A whole program: the entry routine's blocks, the module's name and the
//! routines of the C library that the instructions call.

use vstd::prelude::*;
use crate::ir::{Instr, IntTy, block_views};

verus! {

/// The type of a parameter or of a result of an external routine.
#[derive(Clone, Copy, Debug, PartialEq, Eq, Structural)]
pub enum Ty {
    /// No value.
    Void,
    /// An integer.
    Int(IntTy),
    /// The address of a byte.
    BytePointer,
}

/// The declaration of a routine that is defined elsewhere and linked in.
#[derive(Debug)]
pub struct ExternalFn {
    /// The symbol that the linker resolves.
    pub name: &'static str,
    /// The types of the parameters, in order.
    pub params: Vec<Ty>,
    /// The type of the result.
    pub result: Ty,
}

impl ExternalFn {
    /// Whether this declares `name` with parameters `params` and result `result`.
    pub open spec fn declares(&self, name: Seq<char>, params: Seq<Ty>, result: Ty) -> bool {
        self.name@ == name && self.params@ == params && self.result == result
    }
}

/// The four routines of the C library that a program calls.
#[derive(Debug)]
pub struct ExternalFns {
    /// `int putchar(int)`, called by `Instr::WriteChar`.
    pub putchar: ExternalFn,
    /// `int getchar(void)`, called by `Instr::ReadChar`.
    pub getchar: ExternalFn,
    /// `void *calloc(size_t, size_t)`, called by `Instr::AllocateTape`.
    pub calloc: ExternalFn,
    /// `void free(void *)`, called by `Instr::ReleaseTape`.
    pub free: ExternalFn,
}

impl ExternalFns {
    /// Whether the four declarations have the names and types of the C library.
    pub open spec fn standard(&self) -> bool {
        &&& self.putchar.declares("putchar"@, seq![Ty::Int(IntTy::I32)], Ty::Int(IntTy::I32))
        &&& self.getchar.declares("getchar"@, Seq::empty(), Ty::Int(IntTy::I32))
        &&& self.calloc.declares(
            "calloc"@,
            seq![Ty::Int(IntTy::Size), Ty::Int(IntTy::Size)],
            Ty::BytePointer,
        )
        &&& self.free.declares("free"@, seq![Ty::BytePointer], Ty::Void)
    }

    /// The declarations of `putchar`, `getchar`, `calloc` and `free`.
    pub fn new() -> (r: ExternalFns)
        ensures
            r.standard(),
    {
        let putchar = ExternalFn {
            name: "putchar",
            params: vec![Ty::Int(IntTy::I32)],
            result: Ty::Int(IntTy::I32),
        };
        let getchar = ExternalFn {
            name: "getchar",
            params: Vec::new(),
            result: Ty::Int(IntTy::I32),
        };
        let calloc = ExternalFn {
            name: "calloc",
            params: vec![Ty::Int(IntTy::Size), Ty::Int(IntTy::Size)],
            result: Ty::BytePointer,
        };
        let free = ExternalFn { name: "free", params: vec![Ty::BytePointer], result: Ty::Void };
        proof {
            assert(putchar.params@ =~= seq![Ty::Int(IntTy::I32)]);
            assert(getchar.params@ =~= Seq::empty());
            assert(calloc.params@ =~= seq![Ty::Int(IntTy::Size), Ty::Int(IntTy::Size)]);
            assert(free.params@ =~= seq![Ty::BytePointer]);
        }
        ExternalFns { putchar, getchar, calloc, free }
    }
}

/// A compiled program: one entry routine without parameters that returns a
/// 32-bit status.
#[derive(Debug)]
pub struct Program {
    /// The name of the module.
    pub name: String,
    /// The routines that the instructions call.
    pub externals: ExternalFns,
    /// The blocks of the entry routine; execution starts at the first.
    pub blocks: Vec<Vec<Instr>>,
}

/// The label of block `index` of `blocks`: `entry` for the first, `loop` for a
/// block that the block before it jumps into, `loop_after` for any other.
pub open spec fn label_of(blocks: Seq<Seq<Instr>>, index: int) -> Seq<char> {
    if index == 0 {
        "entry"@
    } else if 0 < index <= blocks.len() && blocks[index - 1].len() > 0 && blocks[index
        - 1].last() is Jump {
        "loop"@
    } else {
        "loop_after"@
    }
}

impl Program {
    /// The instruction sequences of the blocks.
    pub open spec fn body(&self) -> Seq<Seq<Instr>> {
        block_views(self.blocks@)
    }

    /// The label of block `index`: the body of a loop is a `loop`, what follows
    /// a loop is a `loop_after`.
    pub fn block_label(&self, index: usize) -> (r: &'static str)
        ensures
            r@ == label_of(self.body(), index as int),
    {
        if index == 0 {
            return "entry";
        }
        if index <= self.blocks.len() {
            let previous = &self.blocks[index - 1];
            if previous.len() > 0 {
                match previous[previous.len() - 1] {
                    Instr::Jump { .. } => {
                        return "loop";
                    },
                    _ => {},
                }
            }
        }
        "loop_after"
    }
}

/// The symbol of the entry routine.
pub fn entry_symbol() -> (r: &'static str)
    ensures
        r@ == "main"@,
{
    "main"
}

} // verus!
