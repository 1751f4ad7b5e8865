//! What a source text means: its effect on the machine, character by character.
//!
//! The pointer register starts at zero and the tape zeroed. `>` and `<` move the
//! register, `+` and `-` change the current cell, `.` writes it and `,` reads
//! into it. `[` is passed without a test; `]` goes back behind its `[` while the
//! current cell is not zero. So the body of a loop runs once before its cell is
//! first tested.

use vstd::prelude::*;
use crate::machine::{Machine, Register, Tape, after_read, read_char};
use crate::source::{is_primitive, loop_start};

verus! {

/// The machine on which the first character of a text runs: the pointer
/// register at zero, a tape of `heap_size` zeroed cells, `input` unread, nothing
/// written.
pub open spec fn started(heap_size: u64, input: Seq<u8>) -> Machine {
    Machine {
        pointer: Register::Holding(0),
        tape: Tape::Live(Seq::new(heap_size as nat, |i: int| 0u8)),
        input,
        output: Seq::empty(),
    }
}

/// What one character other than `[` and `]` does to the machine that runs the
/// compiled program: `None` where the character needs a current cell, or a
/// value in the pointer register, and there is none.
pub open spec fn primitive_effect(m: Machine, ch: char) -> Option<Machine> {
    if ch == '>' {
        if m.pointer is Holding {
            Some(m.with_pointer((m.pointer_bits() + 1) % 0x1_0000_0000))
        } else {
            None
        }
    } else if ch == '<' {
        if m.pointer is Holding {
            Some(m.with_pointer((m.pointer_bits() - 1) % 0x1_0000_0000))
        } else {
            None
        }
    } else if ch == '+' {
        if m.on_tape() {
            Some(m.with_cell(((m.cell() + 1) % 0x100) as u8))
        } else {
            None
        }
    } else if ch == '-' {
        if m.on_tape() {
            Some(m.with_cell(((m.cell() - 1) % 0x100) as u8))
        } else {
            None
        }
    } else if ch == '.' {
        if m.on_tape() {
            Some(Machine { output: m.output.push(m.cell()), ..m })
        } else {
            None
        }
    } else if ch == ',' {
        if m.on_tape() {
            Some(
                Machine { input: after_read(m.input), ..m }.with_cell(
                    (read_char(m.input) % 0x100) as u8,
                ),
            )
        } else {
            None
        }
    } else {
        Some(m)
    }
}

/// What the characters of a text without loops do to the machine, left to right.
pub open spec fn text_effect(m: Machine, text: Seq<char>) -> Option<Machine>
    decreases text.len(),
{
    if text.len() == 0 {
        Some(m)
    } else {
        match text_effect(m, text.drop_last()) {
            Some(before) => primitive_effect(before, text.last()),
            None => None,
        }
    }
}

/// `ch`, `count` times.
pub open spec fn repeated(ch: char, count: nat) -> Seq<char> {
    Seq::new(count, |i: int| ch)
}

/// The effect of one text after another is the effect of the second on what the
/// first leaves.
pub proof fn lemma_text_effect_concat(m: Machine, a: Seq<char>, b: Seq<char>)
    ensures
        text_effect(m, a + b) == match text_effect(m, a) {
            Some(between) => text_effect(between, b),
            None => None,
        },
    decreases b.len(),
{
    if b.len() == 0 {
        assert(a + b =~= a);
    } else {
        lemma_text_effect_concat(m, a, b.drop_last());
        assert((a + b).drop_last() =~= a + b.drop_last());
        assert((a + b).last() == b.last());
    }
}

/// What has become of a text that is being run.
pub enum TextOutcome {
    /// The character at index `at` is next.
    Running { machine: Machine, at: int },
    /// The text has ended and the tape is released.
    Exited { machine: Machine },
    /// A character needed a current cell, or a live tape, and there was none.
    Undefined,
}

/// One step of `code` on `m`, at index `at`. A `[` is passed without a test. A
/// `]` goes back to just behind its `[` where the current cell is not zero, and
/// on where it is. Any other character has its effect. At the end of the text
/// the tape is released.
pub open spec fn text_step(code: Seq<char>, m: Machine, at: int) -> TextOutcome {
    if at < 0 || at > code.len() {
        TextOutcome::Undefined
    } else if at == code.len() {
        if m.tape is Live {
            TextOutcome::Exited { machine: Machine { tape: Tape::Released, ..m } }
        } else {
            TextOutcome::Undefined
        }
    } else if code[at] == '[' {
        TextOutcome::Running { machine: m, at: at + 1 }
    } else if code[at] == ']' {
        if m.on_tape() {
            TextOutcome::Running {
                machine: m,
                at: if m.cell() != 0 {
                    loop_start(code, at) + 1
                } else {
                    at + 1
                },
            }
        } else {
            TextOutcome::Undefined
        }
    } else {
        match primitive_effect(m, code[at]) {
            Some(machine) => TextOutcome::Running { machine, at: at + 1 },
            None => TextOutcome::Undefined,
        }
    }
}

/// At most `steps` steps of `code` from `m` at index `at`.
pub open spec fn text_run(code: Seq<char>, m: Machine, at: int, steps: nat) -> TextOutcome
    decreases steps,
{
    if steps == 0 {
        TextOutcome::Running { machine: m, at }
    } else {
        match text_step(code, m, at) {
            TextOutcome::Running { machine, at: next } => text_run(
                code,
                machine,
                next,
                (steps - 1) as nat,
            ),
            ended => ended,
        }
    }
}

/// Running `first + second` steps of a text is running `first` steps, then
/// `second` more.
pub proof fn lemma_text_run_split(code: Seq<char>, m: Machine, at: int, first: nat, second: nat)
    ensures
        text_run(code, m, at, first + second) == match text_run(code, m, at, first) {
            TextOutcome::Running { machine, at: next } => text_run(code, machine, next, second),
            ended => ended,
        },
    decreases first,
{
    if first > 0 {
        match text_step(code, m, at) {
            TextOutcome::Running { machine, at: next } => {
                lemma_text_run_split(code, machine, next, (first - 1) as nat, second);
                assert(text_run(code, m, at, first + second) == text_run(
                    code,
                    machine,
                    next,
                    (first + second - 1) as nat,
                ));
            },
            _ => {},
        }
    }
}

/// Comments are passed one by one and change nothing.
pub proof fn lemma_comments_pass(code: Seq<char>, m: Machine, from: int, to: int)
    requires
        0 <= from <= to <= code.len(),
        forall|i: int| from <= i < to ==> !is_primitive(code[i]),
    ensures
        text_run(code, m, from, (to - from) as nat) == (TextOutcome::Running {
            machine: m,
            at: to,
        }),
    decreases to - from,
{
    if from < to {
        lemma_comments_pass(code, m, from + 1, to);
        assert(!is_primitive(code[from]));
    }
}

} // verus!
