//! The source language: eight significant characters, everything else a comment.
//!
//! `[` opens a loop and `]` closes the innermost open one. This module says when
//! a text nests its loops properly, and which fault it has where it does not.

use vstd::prelude::*;
use vstd::utf8::encode_utf8;

verus! {

/// Why a source text cannot be compiled.
#[derive(Clone, Copy, Debug, PartialEq, Eq, Structural)]
pub enum CodegenError {
    /// The character at this index is a `]` with no loop open.
    UnmatchedLoopExit { position: usize },
    /// The text ends with this many loops still open.
    UnclosedLoop { open: usize },
}

impl CodegenError {
    /// What to tell the user.
    pub fn message(&self) -> (r: &'static str)
        ensures
            self is UnmatchedLoopExit ==> r@ == "unmatched bracket: `]` without a `[` before it"@,
            self is UnclosedLoop ==> r@ == "unmatched bracket: `[` without a `]` after it"@,
    {
        match self {
            CodegenError::UnmatchedLoopExit { .. } => {
                "unmatched bracket: `]` without a `[` before it"
            },
            CodegenError::UnclosedLoop { .. } => "unmatched bracket: `[` without a `]` after it",
        }
    }
}

/// Whether `ch` is one of the eight characters that mean something.
pub open spec fn is_primitive(ch: char) -> bool {
    ch == '>' || ch == '<' || ch == '+' || ch == '-' || ch == '.' || ch == ',' || ch == '['
        || ch == ']'
}

/// How `ch` changes the number of open loops.
pub open spec fn depth_change(ch: char) -> int {
    if ch == '[' {
        1
    } else if ch == ']' {
        -1
    } else {
        0
    }
}

/// The number of `[` in `code` less the number of `]`.
pub open spec fn depth(code: Seq<char>) -> int
    decreases code.len(),
{
    if code.len() == 0 {
        0
    } else {
        depth(code.drop_last()) + depth_change(code.last())
    }
}

/// Whether no `]` in `code` comes without an open loop: no prefix closes more
/// loops than it opens.
pub open spec fn well_nested(code: Seq<char>) -> bool {
    forall|n: int| 0 <= n <= code.len() ==> depth(#[trigger] code.take(n)) >= 0
}

/// Whether every `[` in `code` has its `]` and every `]` its `[`.
pub open spec fn balanced(code: Seq<char>) -> bool {
    well_nested(code) && depth(code) == 0
}

/// The index of the first `]` in `code` that has no open loop to close.
pub open spec fn first_unmatched_exit(code: Seq<char>) -> Option<int>
    decreases code.len(),
{
    if code.len() == 0 {
        None
    } else {
        match first_unmatched_exit(code.drop_last()) {
            Some(position) => Some(position),
            None => if depth(code) < 0 {
                Some(code.len() - 1)
            } else {
                None
            },
        }
    }
}

/// The verdict on the nesting of `code`: the first `]` without a loop to close,
/// else the loops left open at the end, else none.
pub open spec fn nesting(code: Seq<char>) -> Result<(), CodegenError> {
    match first_unmatched_exit(code) {
        Some(position) => Err(CodegenError::UnmatchedLoopExit { position: position as usize }),
        None => if depth(code) > 0 {
            Err(CodegenError::UnclosedLoop { open: depth(code) as usize })
        } else {
            Ok(())
        },
    }
}

/// Whether `text` holds no `[` and no `]`.
pub open spec fn straight(text: Seq<char>) -> bool {
    forall|i: int| 0 <= i < text.len() ==> text[i] != '[' && text[i] != ']'
}

/// The indices of the `[` in `code` that are still open at its end, innermost last.
pub open spec fn open_loops(code: Seq<char>) -> Seq<int>
    decreases code.len(),
{
    if code.len() == 0 {
        Seq::empty()
    } else {
        let before = open_loops(code.drop_last());
        if code.last() == '[' {
            before.push(code.len() - 1)
        } else if code.last() == ']' && before.len() > 0 {
            before.drop_last()
        } else {
            before
        }
    }
}

/// The index of the `[` that the `]` at index `exit` of `code` closes.
pub open spec fn loop_start(code: Seq<char>, exit: int) -> int {
    open_loops(code.take(exit)).last()
}

/// One more character: how depth and the first fault of a prefix grow.
pub proof fn lemma_prefix_step(code: Seq<char>, n: int)
    requires
        0 <= n < code.len(),
    ensures
        code.take(n + 1).drop_last() == code.take(n),
        code.take(n + 1).last() == code[n],
        depth(code.take(n + 1)) == depth(code.take(n)) + depth_change(code[n]),
{
    assert(code.take(n + 1).drop_last() =~= code.take(n));
}

/// `first_unmatched_exit` finds a fault exactly where the text is not well
/// nested, and what it finds is the first place where the depth falls below zero.
pub proof fn lemma_first_unmatched_exit(code: Seq<char>)
    ensures
        first_unmatched_exit(code) is None <==> well_nested(code),
        first_unmatched_exit(code) matches Some(position) ==> {
            &&& 0 <= position < code.len()
            &&& code[position] == ']'
            &&& well_nested(code.take(position))
            &&& depth(code.take(position)) == 0
        },
    decreases code.len(),
{
    if code.len() == 0 {
        assert forall|n: int| 0 <= n <= code.len() implies depth(#[trigger] code.take(n)) >= 0 by {
            assert(code.take(n) =~= code);
        }
    } else {
        let front = code.drop_last();
        lemma_first_unmatched_exit(front);
        assert(code.take(code.len() as int) =~= code);
        assert(code.take(code.len() - 1) =~= front);
        assert forall|n: int| 0 <= n < code.len() implies #[trigger] code.take(n) == front.take(
            n,
        ) by {
            assert(code.take(n) =~= front.take(n));
        }
        match first_unmatched_exit(front) {
            Some(position) => {
                assert(code.take(position) == front.take(position));
                assert(depth(front.take(position + 1)) < 0) by {
                    let upto = front.take(position + 1);
                    assert(upto.drop_last() =~= front.take(position));
                    assert(upto.last() == ']');
                }
                assert(code.take(position + 1) == front.take(position + 1));
            },
            None => {
                if depth(code) < 0 {
                    assert(depth(front) >= 0) by {
                        assert(front.take(front.len() as int) =~= front);
                    }
                    assert(well_nested(code.take(code.len() - 1)));
                } else {
                    assert forall|n: int| 0 <= n <= code.len() implies depth(
                        #[trigger] code.take(n),
                    ) >= 0 by {
                        if n < code.len() {
                            assert(code.take(n) == front.take(n));
                        }
                    }
                }
            },
        }
    }
}

/// A fault found in a prefix of `code` is the fault of `code`.
pub proof fn lemma_fault_in_prefix(code: Seq<char>, n: int)
    requires
        0 <= n <= code.len(),
        first_unmatched_exit(code.take(n)) is Some,
    ensures
        first_unmatched_exit(code) == first_unmatched_exit(code.take(n)),
    decreases code.len() - n,
{
    if n == code.len() {
        assert(code.take(n) =~= code);
    } else {
        assert(code.take(n + 1).drop_last() =~= code.take(n));
        lemma_fault_in_prefix(code, n + 1);
    }
}

/// The verdict is none exactly on balanced texts, an unmatched `]` exactly on
/// texts that are not well nested, and open loops exactly on well-nested texts
/// that open more loops than they close.
pub proof fn lemma_nesting_verdict(code: Seq<char>)
    ensures
        nesting(code) is Ok <==> balanced(code),
        nesting(code) matches Err(CodegenError::UnmatchedLoopExit { .. }) <==> !well_nested(code),
        nesting(code) matches Err(CodegenError::UnclosedLoop { .. }) <==> well_nested(code)
            && depth(code) > 0,
{
    lemma_first_unmatched_exit(code);
    if well_nested(code) {
        assert(code.take(code.len() as int) =~= code);
    }
}

/// A text without loops has depth zero and no fault.
pub proof fn lemma_straight_is_balanced(text: Seq<char>)
    requires
        straight(text),
    ensures
        depth(text) == 0,
        first_unmatched_exit(text) is None,
        balanced(text),
    decreases text.len(),
{
    if text.len() > 0 {
        lemma_straight_is_balanced(text.drop_last());
    }
    lemma_first_unmatched_exit(text);
}

/// A text has no more characters than its UTF-8 encoding has bytes.
pub proof fn lemma_chars_within_bytes(chars: Seq<char>)
    ensures
        chars.len() <= encode_utf8(chars).len(),
    decreases chars.len(),
{
    if chars.len() > 0 {
        lemma_chars_within_bytes(chars.drop_first());
    }
}

} // verus!
