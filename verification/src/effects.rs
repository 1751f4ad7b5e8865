//! What the emitted instructions do to the machine: for each character its
//! meaning, no more and no less.

use vstd::prelude::*;
use crate::codegen::{
    decrement_cell_code, increment_cell_code, input_code, loop_test_code, move_left_code,
    move_right_code, output_code, primitive_code, straight_code,
};
use crate::ir::{Instr, Operand};
use crate::machine::{
    Frame, Machine, lemma_run_concat, run_code, run_prefix, step_frame, step_instr,
};
use crate::meaning::{lemma_text_effect_concat, primitive_effect, repeated, text_effect};
use crate::source::straight;

verus! {

/// The frame after the two instructions that compute the current cell's address.
spec fn addressed(f: Frame) -> Frame {
    Frame {
        machine: f.machine,
        values: f.values.push(f.machine.pointer_bits()).push(f.machine.cell_index()),
    }
}

/// Code that starts with the address of the current cell: the first two
/// instructions run exactly where the register holds a value and the tape is
/// live, and leave the machine as it was.
proof fn lemma_address_prefix(f: Frame, code: Seq<Instr>)
    requires
        code.len() >= 2,
        code[0] == Instr::LoadPointer,
        code[1] == (Instr::CellAddress { index: Operand::Back(1) }),
    ensures
        run_prefix(f, code, 2) == if f.machine.pointer is Holding && f.machine.tape is Live {
            Some(addressed(f))
        } else {
            None
        },
{
    assert(run_prefix(f, code, 0) == Some(f));
    assert(run_prefix(f, code, 1) == step_frame(f, code[0]));
    if f.machine.pointer is Holding {
        let g = Frame { machine: f.machine, values: f.values.push(f.machine.pointer_bits()) };
        assert(run_prefix(f, code, 1) == Some(g));
        assert(run_prefix(f, code, 2) == step_frame(g, code[1]));
    } else {
        assert(run_prefix(f, code, 1) is None);
        assert(run_prefix(f, code, 2) is None);
    }
}

/// No instruction runs after a prefix that is undefined.
proof fn lemma_undefined_prefix(f: Frame, code: Seq<Instr>, at: nat, count: nat)
    requires
        run_prefix(f, code, at) is None,
        at <= count,
    ensures
        run_prefix(f, code, count) is None,
    decreases count,
{
    if at < count {
        lemma_undefined_prefix(f, code, at, (count - 1) as nat);
    }
}

/// Three instructions that work on the pointer register alone.
proof fn lemma_three(f: Frame, code: Seq<Instr>)
    requires
        code.len() == 3,
    ensures
        run_code(f, code) == match step_frame(f, code[0]) {
            Some(g) => match step_frame(g, code[1]) {
                Some(h) => step_frame(h, code[2]),
                None => None,
            },
            None => None,
        },
{
    assert(run_prefix(f, code, 0) == Some(f));
    assert(run_prefix(f, code, 1) == step_frame(f, code[0]));
    assert(run_prefix(f, code, 2) == match run_prefix(f, code, 1) {
        Some(g) => step_frame(g, code[1]),
        None => None,
    });
    assert(run_prefix(f, code, 3) == match run_prefix(f, code, 2) {
        Some(h) => step_frame(h, code[2]),
        None => None,
    });
}

/// Three more instructions after a prefix that ran.
proof fn lemma_three_more(f: Frame, code: Seq<Instr>, g: Frame)
    requires
        code.len() == 5,
        run_prefix(f, code, 2) == Some(g),
    ensures
        run_code(f, code) == match step_frame(g, code[2]) {
            Some(h) => match step_frame(h, code[3]) {
                Some(i) => step_frame(i, code[4]),
                None => None,
            },
            None => None,
        },
{
    assert(run_prefix(f, code, 3) == step_frame(g, code[2]));
    assert(run_prefix(f, code, 4) == match run_prefix(f, code, 3) {
        Some(h) => step_frame(h, code[3]),
        None => None,
    });
    assert(run_prefix(f, code, 5) == match run_prefix(f, code, 4) {
        Some(i) => step_frame(i, code[4]),
        None => None,
    });
}

/// Five instructions of which the first two compute the address of the current
/// cell: they are undefined where there is no register value or no live tape,
/// and else come to the last three run behind the address.
proof fn lemma_on_cell(m: Machine, values: Seq<int>, code: Seq<Instr>)
    requires
        code.len() == 5,
        code[0] == Instr::LoadPointer,
        code[1] == (Instr::CellAddress { index: Operand::Back(1) }),
    ensures
        !(m.pointer is Holding && m.tape is Live) ==> run_code(Frame { machine: m, values }, code)
            is None,
        m.pointer is Holding && m.tape is Live ==> run_code(Frame { machine: m, values }, code)
            == match step_frame(addressed(Frame { machine: m, values }), code[2]) {
            Some(h) => match step_frame(h, code[3]) {
                Some(i) => step_frame(i, code[4]),
                None => None,
            },
            None => None,
        },
{
    let f = Frame { machine: m, values };
    lemma_address_prefix(f, code);
    if m.pointer is Holding && m.tape is Live {
        lemma_three_more(f, code, addressed(f));
    } else {
        lemma_undefined_prefix(f, code, 2, 5);
    }
}

/// `>` as emitted.
proof fn lemma_move_right(m: Machine, values: Seq<int>)
    requires
        m.wf(),
    ensures
        match run_code(Frame { machine: m, values }, move_right_code()) {
            Some(after) => primitive_effect(m, '>') == Some(after.machine) && after.machine.wf(),
            None => primitive_effect(m, '>') is None,
        },
{
    lemma_three(Frame { machine: m, values }, move_right_code());
}

/// `<` as emitted.
proof fn lemma_move_left(m: Machine, values: Seq<int>)
    requires
        m.wf(),
    ensures
        match run_code(Frame { machine: m, values }, move_left_code()) {
            Some(after) => primitive_effect(m, '<') == Some(after.machine) && after.machine.wf(),
            None => primitive_effect(m, '<') is None,
        },
{
    lemma_three(Frame { machine: m, values }, move_left_code());
}

/// `+` as emitted.
proof fn lemma_increment(m: Machine, values: Seq<int>)
    requires
        m.wf(),
    ensures
        match run_code(Frame { machine: m, values }, increment_cell_code()) {
            Some(after) => primitive_effect(m, '+') == Some(after.machine) && after.machine.wf(),
            None => primitive_effect(m, '+') is None,
        },
{
    lemma_on_cell(m, values, increment_cell_code());
}

/// `-` as emitted.
proof fn lemma_decrement(m: Machine, values: Seq<int>)
    requires
        m.wf(),
    ensures
        match run_code(Frame { machine: m, values }, decrement_cell_code()) {
            Some(after) => primitive_effect(m, '-') == Some(after.machine) && after.machine.wf(),
            None => primitive_effect(m, '-') is None,
        },
{
    lemma_on_cell(m, values, decrement_cell_code());
}

/// `.` as emitted.
proof fn lemma_output(m: Machine, values: Seq<int>)
    requires
        m.wf(),
    ensures
        match run_code(Frame { machine: m, values }, output_code()) {
            Some(after) => primitive_effect(m, '.') == Some(after.machine) && after.machine.wf(),
            None => primitive_effect(m, '.') is None,
        },
{
    lemma_on_cell(m, values, output_code());
}

/// `,` as emitted.
proof fn lemma_input(m: Machine, values: Seq<int>)
    requires
        m.wf(),
    ensures
        match run_code(Frame { machine: m, values }, input_code()) {
            Some(after) => primitive_effect(m, ',') == Some(after.machine) && after.machine.wf(),
            None => primitive_effect(m, ',') is None,
        },
{
    lemma_on_cell(m, values, input_code());
}

/// The instructions emitted for a character other than `[` and `]` do to the
/// machine what the character means, whatever the block has computed before:
/// `>` and `<` move the pointer register by one, `+` and `-` change the current
/// cell by one modulo 256, `.` writes the current cell, `,` reads into it, and
/// any other character does nothing. The instructions are undefined exactly
/// where the character's meaning is.
pub proof fn theorem_primitive(m: Machine, values: Seq<int>, ch: char)
    requires
        m.wf(),
        ch != '[',
        ch != ']',
    ensures
        match run_code(Frame { machine: m, values }, primitive_code(ch)) {
            Some(after) => primitive_effect(m, ch) == Some(after.machine) && after.machine.wf(),
            None => primitive_effect(m, ch) is None,
        },
{
    if ch == '>' {
        lemma_move_right(m, values);
    } else if ch == '<' {
        lemma_move_left(m, values);
    } else if ch == '+' {
        lemma_increment(m, values);
    } else if ch == '-' {
        lemma_decrement(m, values);
    } else if ch == '.' {
        lemma_output(m, values);
    } else if ch == ',' {
        lemma_input(m, values);
    } else {
        assert(primitive_code(ch).len() == 0);
    }
}

/// The test of `]` is defined exactly where there is a current cell; it leaves
/// the machine as it was and yields 1 where the cell is not zero, 0 where it is.
pub proof fn lemma_loop_test(m: Machine, values: Seq<int>)
    ensures
        match run_code(Frame { machine: m, values }, loop_test_code()) {
            Some(after) => {
                &&& m.on_tape()
                &&& after.machine == m
                &&& after.values.len() == values.len() + 4
                &&& after.values.last() == if m.cell() != 0 {
                    1int
                } else {
                    0int
                }
            },
            None => !m.on_tape(),
        },
{
    let f = Frame { machine: m, values };
    let code = loop_test_code();
    lemma_address_prefix(f, code);
    if m.pointer is Holding && m.tape is Live {
        let g = addressed(f);
        assert(run_prefix(f, code, 3) == step_frame(g, code[2]));
        assert(run_prefix(f, code, 4) == match run_prefix(f, code, 3) {
            Some(h) => step_frame(h, code[3]),
            None => None,
        });
    } else {
        lemma_undefined_prefix(f, code, 2, 4);
    }
}

/// The instructions emitted for a text without loops do to the machine what its
/// characters mean, one after the other, and are undefined exactly where that
/// meaning is.
pub proof fn theorem_straight_text(m: Machine, values: Seq<int>, text: Seq<char>)
    requires
        m.wf(),
        straight(text),
    ensures
        match run_code(Frame { machine: m, values }, straight_code(text)) {
            Some(after) => text_effect(m, text) == Some(after.machine) && after.machine.wf(),
            None => text_effect(m, text) is None,
        },
    decreases text.len(),
{
    let f = Frame { machine: m, values };
    if text.len() > 0 {
        let front = text.drop_last();
        theorem_straight_text(m, values, front);
        lemma_run_concat(f, straight_code(front), primitive_code(text.last()));
        match run_code(f, straight_code(front)) {
            Some(g) => {
                theorem_primitive(g.machine, g.values, text.last());
            },
            None => {},
        }
    }
}

/// `+` then `-`, and `-` then `+`, on a machine that has a current cell: the
/// emitted instructions leave the whole machine as it was, for every value of
/// the cell, 0 and 255 included.
pub proof fn theorem_increment_and_decrement_cancel(m: Machine, values: Seq<int>)
    requires
        m.wf(),
        m.on_tape(),
    ensures
        text_effect(m, seq!['+', '-']) == Some(m),
        text_effect(m, seq!['-', '+']) == Some(m),
        run_code(Frame { machine: m, values }, straight_code(seq!['+', '-'])) matches Some(after)
            && after.machine == m,
        run_code(Frame { machine: m, values }, straight_code(seq!['-', '+'])) matches Some(after)
            && after.machine == m,
{
    let up = seq!['+', '-'];
    let down = seq!['-', '+'];
    assert(up.drop_last() =~= seq!['+']);
    assert(seq!['+'].drop_last() =~= Seq::<char>::empty());
    assert(down.drop_last() =~= seq!['-']);
    assert(seq!['-'].drop_last() =~= Seq::<char>::empty());
    reveal_with_fuel(text_effect, 3);
    let raised = primitive_effect(m, '+')->0;
    let lowered = primitive_effect(m, '-')->0;
    assert(raised.with_cell(((raised.cell() - 1) % 0x100) as u8).cells() =~= m.cells());
    assert(lowered.with_cell(((lowered.cell() + 1) % 0x100) as u8).cells() =~= m.cells());
    theorem_straight_text(m, values, up);
    theorem_straight_text(m, values, down);
}

/// One `>` then one `<`, or one `<` then one `>`, leave the pointer register as it was.
proof fn lemma_move_back(m: Machine)
    requires
        m.wf(),
        m.pointer is Holding,
    ensures
        primitive_effect(primitive_effect(m, '>')->0, '<') == Some(m),
        primitive_effect(primitive_effect(m, '<')->0, '>') == Some(m),
        primitive_effect(m, '>') is Some,
        primitive_effect(m, '<') is Some,
        primitive_effect(m, '>')->0.wf(),
        primitive_effect(m, '<')->0.wf(),
        primitive_effect(m, '>')->0.pointer is Holding,
        primitive_effect(m, '<')->0.pointer is Holding,
{
}

/// `count` times `first`, then `count` times `second`, where the two are `>` and
/// `<` in either order.
proof fn lemma_there_and_back(m: Machine, first: char, second: char, count: nat)
    requires
        m.wf(),
        m.pointer is Holding,
        (first == '>' && second == '<') || (first == '<' && second == '>'),
    ensures
        text_effect(m, repeated(first, count) + repeated(second, count)) == Some(m),
    decreases count,
{
    let text = repeated(first, count) + repeated(second, count);
    if count == 0 {
        assert(text =~= Seq::<char>::empty());
    } else {
        let less = (count - 1) as nat;
        let inner = repeated(first, less) + repeated(second, less);
        assert(text =~= seq![first] + inner + seq![second]);
        lemma_move_back(m);
        let moved = primitive_effect(m, first)->0;
        lemma_there_and_back(moved, first, second, less);
        lemma_text_effect_concat(m, seq![first], inner);
        lemma_text_effect_concat(m, seq![first] + inner, seq![second]);
        assert(text_effect(m, seq![first]) == Some(moved)) by {
            reveal_with_fuel(text_effect, 2);
            assert(seq![first].drop_last() =~= Seq::<char>::empty());
        }
        assert(text_effect(moved, seq![second]) == Some(m)) by {
            reveal_with_fuel(text_effect, 2);
            assert(seq![second].drop_last() =~= Seq::<char>::empty());
        }
    }
}

/// `>` any number of times, then `<` as many times, and the same with `<` first:
/// the emitted instructions leave the pointer register, and the whole machine,
/// as they were. The register wraps at 32 bits, so this holds of every count.
pub proof fn theorem_moves_cancel(m: Machine, values: Seq<int>, count: nat)
    requires
        m.wf(),
        m.pointer is Holding,
    ensures
        text_effect(m, repeated('>', count) + repeated('<', count)) == Some(m),
        text_effect(m, repeated('<', count) + repeated('>', count)) == Some(m),
        run_code(
            Frame { machine: m, values },
            straight_code(repeated('>', count) + repeated('<', count)),
        ) matches Some(after) && after.machine == m,
        run_code(
            Frame { machine: m, values },
            straight_code(repeated('<', count) + repeated('>', count)),
        ) matches Some(after) && after.machine == m,
{
    lemma_there_and_back(m, '>', '<', count);
    lemma_there_and_back(m, '<', '>', count);
    theorem_straight_text(m, values, repeated('>', count) + repeated('<', count));
    theorem_straight_text(m, values, repeated('<', count) + repeated('>', count));
}

/// The tape has one length from its allocation to its release: an instruction
/// that runs on a live tape leaves it live and as long as it was, or is the one
/// that releases it.
pub proof fn theorem_tape_length_fixed(m: Machine, values: Seq<int>, instr: Instr)
    requires
        m.tape is Live,
        step_instr(m, values, instr) is Some,
    ensures
        ({
            let (after, _) = step_instr(m, values, instr)->0;
            if instr is ReleaseTape {
                after.tape is Released
            } else {
                after.tape is Live && after.cells().len() == m.cells().len()
            }
        }),
{
}

} // verus!
