use vstd::prelude::*;
use vstd::arithmetic::div_mod::{lemma_add_mod_noop_right, lemma_small_mod, lemma_sub_mod_noop_right};
use crate::codegen::{
    bracket_error, lemma_lowered_outcome, lemma_skips_have_no_effect, lowered, start, step,
    steps, with_op, without_skips, PlanState,
};
use crate::effect::lemma_tape_stays_in_bounds;
use crate::error::CompileError;
use crate::function::{BlockView, FunctionView, Op, OutputMode, Terminator};
use crate::instruction::{instruction_for, is_run_symbol, is_symbol, Instruction};
use crate::machine::{after_op, after_ops, ran, MachineView};
use crate::meaning::{lemma_lowering_keeps_meaning, meant, op_of, tape_in_bounds};
use crate::scanner::{lemma_run_length, run_length, scanned};
use crate::outputs::{lemma_ops_in_a_row, lemma_steps_in_a_row};
use crate::tape::{cell_plus, current_cell, lemma_reduce_once, ring_offset, TAPE_SIZE};

verus! {

/// A text taken character by character: every character is an instruction
/// of its own, and no run is folded.
pub open spec fn unit_stream(text: Seq<char>) -> Seq<Instruction> {
    Seq::new(text.len(), |i: int| instruction_for(text[i], 1))
}

/// The operation of a single run symbol.
pub open spec fn unit_op(c: char) -> Op {
    if c == '+' {
        Op::AddCell(1)
    } else if c == '-' {
        Op::SubCell(1)
    } else if c == '>' {
        Op::ShiftRight(1)
    } else {
        Op::ShiftLeft(1)
    }
}

/// The operation of a run of `n` copies of a run symbol.
pub open spec fn run_op(c: char, n: nat) -> Op {
    if c == '+' {
        Op::AddCell((n % 256) as u8)
    } else if c == '-' {
        Op::SubCell((n % 256) as u8)
    } else if c == '>' {
        Op::ShiftRight(n as u64)
    } else {
        Op::ShiftLeft(n as u64)
    }
}

/// `n` times the same operation.
pub open spec fn repeated_op(op: Op, n: nat) -> Seq<Op> {
    Seq::new(n, |i: int| op)
}

/// A folded run does what its symbols do one by one: `n` single
/// operations leave the machine as the one operation of the run of `n`
/// leaves it.
pub proof fn lemma_units_fold(m: MachineView, c: char, n: nat, input: Seq<u8>)
    requires
        tape_in_bounds(m.tape),
        is_run_symbol(c),
        n <= u64::MAX,
    ensures
        after_ops(m, repeated_op(unit_op(c), n), input) == after_op(m, run_op(c, n), input),
    decreases n,
{
    let cell = current_cell(m.tape);
    let at = m.tape.pointer;
    let size = TAPE_SIZE as int;
    let folded = after_op(m, run_op(c, n), input);
    if n == 0 {
        assert(after_ops(m, repeated_op(unit_op(c), n), input) == m);
        lemma_small_mod(cell as nat, 256);
        lemma_small_mod(at as nat, TAPE_SIZE as nat);
        assert(folded.tape.cells =~= m.tape.cells);
    } else {
        let before = (n - 1) as nat;
        lemma_units_fold(m, c, before, input);
        assert(repeated_op(unit_op(c), n).drop_last() =~= repeated_op(unit_op(c), before));
        assert(repeated_op(unit_op(c), n).last() == unit_op(c));
        let partly = after_op(m, run_op(c, before), input);
        let one_by_one = after_op(partly, unit_op(c), input);
        assert(after_ops(m, repeated_op(unit_op(c), n), input) == one_by_one);
        if c == '+' {
            lemma_add_mod_noop_right(cell as int, before as int, 256);
            lemma_reduce_once(cell as int + before, 1, 256);
            lemma_add_mod_noop_right(cell as int, n as int, 256);
            assert(current_cell(partly.tape) == cell_plus(cell, (before % 256) as int));
            assert(cell_plus(current_cell(partly.tape), 1) == cell_plus(cell, (n % 256) as int));
            assert(one_by_one.tape.cells =~= folded.tape.cells);
        } else if c == '-' {
            lemma_sub_mod_noop_right(cell as int, before as int, 256);
            lemma_reduce_once(cell as int - before, -1, 256);
            lemma_sub_mod_noop_right(cell as int, n as int, 256);
            assert(cell as int + -((before % 256) as int) == cell as int - (before as int % 256));
            assert(cell as int + -((n % 256) as int) == cell as int - (n as int % 256));
            assert(current_cell(partly.tape) == cell_plus(cell, -((before % 256) as int)));
            assert(cell_plus(current_cell(partly.tape), -1) == cell_plus(
                cell,
                -((n % 256) as int),
            ));
            assert(one_by_one.tape.cells =~= folded.tape.cells);
        } else if c == '>' {
            lemma_reduce_once(at + before, 1, size);
            assert(ring_offset(ring_offset(at, before as int, size), 1, size) == ring_offset(
                at,
                n as int,
                size,
            ));
        } else {
            lemma_reduce_once(at + -(before as int), -1, size);
            assert(at + -(before as int) + -1 == at + -(n as int));
            assert(ring_offset(ring_offset(at, -(before as int), size), -1, size) == ring_offset(
                at,
                -(n as int),
                size,
            ));
        }
    }
}

/// Operations keep the tape in bounds.
pub proof fn lemma_ops_stay_in_bounds(m: MachineView, ops: Seq<Op>, input: Seq<u8>)
    requires
        tape_in_bounds(m.tape),
    ensures
        tape_in_bounds(after_ops(m, ops, input).tape),
    decreases ops.len(),
{
    if ops.len() > 0 {
        lemma_ops_stay_in_bounds(m, ops.drop_last(), input);
        lemma_tape_stays_in_bounds(after_ops(m, ops.drop_last(), input), ops.last(), input);
    }
}

/// Whether two rows of operations do the same to every machine.
pub open spec fn ops_alike(first: Seq<Op>, second: Seq<Op>) -> bool {
    forall|m: MachineView, input: Seq<u8>|
        tape_in_bounds(m.tape) ==> #[trigger] after_ops(m, first, input) == after_ops(
            m,
            second,
            input,
        )
}

/// Whether two states of the code generator are alike: they stand at the
/// same block with the same loops open, and block by block they hold the
/// same terminator and operations that do the same.
pub open spec fn alike(s: PlanState, t: PlanState) -> bool {
    &&& s.current == t.current
    &&& s.open == t.open
    &&& s.blocks.len() == t.blocks.len()
    &&& forall|b: int|
        0 <= b < s.blocks.len() ==> (#[trigger] s.blocks[b]).kind == t.blocks[b].kind
            && s.blocks[b].terminator == t.blocks[b].terminator && ops_alike(
            s.blocks[b].ops,
            t.blocks[b].ops,
        )
}

/// Whether the code generator points only at blocks that exist: its current
/// block, the blocks of every open loop and the targets of every branch.
pub open spec fn pointed(s: PlanState) -> bool {
    &&& 0 <= s.current < s.blocks.len()
    &&& forall|j: int|
        0 <= j < s.open.len() ==> (#[trigger] s.open[j]).exit < s.blocks.len() && s.open[j].body
            < s.blocks.len()
    &&& forall|b: int|
        0 <= b < s.blocks.len() ==> match (#[trigger] s.blocks[b]).terminator {
            Terminator::Branch { exit, body } => exit < s.blocks.len() && body < s.blocks.len(),
            Terminator::Return => true,
        }
}

/// One instruction keeps the code generator pointed at blocks that exist.
proof fn lemma_step_pointed(s: PlanState, instruction: Instruction)
    requires
        pointed(s),
    ensures
        step(s, instruction) matches Ok(t) ==> pointed(t),
{
    match step(s, instruction) {
        Ok(t) => {
            if instruction == Instruction::LoopStart {
                assert forall|j: int| 0 <= j < t.open.len() implies (#[trigger] t.open[j]).exit
                    < t.blocks.len() && t.open[j].body < t.blocks.len() by {
                    if j < s.open.len() {
                        assert(t.open[j] == s.open[j]);
                    }
                }
            } else if instruction == Instruction::LoopEnd {
                assert(s.open.last() == s.open[s.open.len() - 1]);
                assert forall|j: int| 0 <= j < t.open.len() implies (#[trigger] t.open[j]).exit
                    < t.blocks.len() && t.open[j].body < t.blocks.len() by {
                    assert(t.open[j] == s.open[j]);
                }
            }
        },
        Err(_) => {},
    }
}

/// A stream keeps the code generator pointed at blocks that exist.
proof fn lemma_steps_pointed(s: PlanState, stream: Seq<Instruction>)
    requires
        pointed(s),
    ensures
        steps(s, stream) matches Ok(t) ==> pointed(t),
    decreases stream.len(),
{
    if stream.len() > 0 {
        lemma_steps_pointed(s, stream.drop_last());
        match steps(s, stream.drop_last()) {
            Ok(before) => lemma_step_pointed(before, stream.last()),
            Err(_) => {},
        }
    }
}

/// Rows that do the same still do with one more operation behind each.
proof fn lemma_push_alike(first: Seq<Op>, second: Seq<Op>, op: Op)
    requires
        ops_alike(first, second),
    ensures
        ops_alike(first.push(op), second.push(op)),
{
    assert forall|m: MachineView, input: Seq<u8>| tape_in_bounds(m.tape) implies #[trigger] after_ops(
        m,
        first.push(op),
        input,
    ) == after_ops(m, second.push(op), input) by {
        assert(first.push(op).drop_last() == first);
        assert(second.push(op).drop_last() == second);
        assert(after_ops(m, first, input) == after_ops(m, second, input));
    }
}

/// The same instruction leads from states that are alike to states that
/// are alike, or fails from both.
proof fn lemma_step_alike(s: PlanState, t: PlanState, instruction: Instruction)
    requires
        alike(s, t),
        pointed(s),
        pointed(t),
    ensures
        match (step(s, instruction), step(t, instruction)) {
            (Ok(s2), Ok(t2)) => alike(s2, t2),
            (Err(e), Err(f)) => e == f,
            _ => false,
        },
{
    match (step(s, instruction), step(t, instruction)) {
        (Ok(s2), Ok(t2)) => {
            assert forall|b: int| 0 <= b < s2.blocks.len() implies (#[trigger] s2.blocks[b]).kind
                == t2.blocks[b].kind && s2.blocks[b].terminator == t2.blocks[b].terminator
                && ops_alike(s2.blocks[b].ops, t2.blocks[b].ops) by {
                if b < s.blocks.len() {
                    assert(ops_alike(s.blocks[b].ops, t.blocks[b].ops));
                    if b == s.current {
                        match op_of(instruction) {
                            Some(op) => {
                                lemma_push_alike(s.blocks[b].ops, t.blocks[b].ops, op);
                            },
                            None => {},
                        }
                    }
                }
            }
        },
        _ => {},
    }
}

/// The state with a row of operations added to the current block.
pub open spec fn with_ops(s: PlanState, ops: Seq<Op>) -> PlanState {
    let b = s.blocks[s.current];
    PlanState {
        blocks: s.blocks.update(
            s.current,
            BlockView { kind: b.kind, ops: b.ops + ops, terminator: b.terminator },
        ),
        current: s.current,
        open: s.open,
    }
}

/// `n` single instructions of a run symbol.
pub open spec fn units(c: char, n: nat) -> Seq<Instruction> {
    Seq::new(n, |i: int| instruction_for(c, 1))
}

/// `n` single instructions of a run symbol add their `n` single operations
/// to the current block.
proof fn lemma_units_steps(s: PlanState, c: char, n: nat)
    requires
        pointed(s),
        is_run_symbol(c),
    ensures
        steps(s, units(c, n)) == Ok::<PlanState, CompileError>(
            with_ops(s, repeated_op(unit_op(c), n)),
        ),
    decreases n,
{
    if n == 0 {
        assert(units(c, n).len() == 0);
        assert(s.blocks[s.current].ops + repeated_op(unit_op(c), 0) =~= s.blocks[s.current].ops);
        assert(with_ops(s, repeated_op(unit_op(c), 0)).blocks =~= s.blocks);
    } else {
        let before = (n - 1) as nat;
        lemma_units_steps(s, c, before);
        assert(units(c, n).drop_last() =~= units(c, before));
        assert(units(c, n).last() == instruction_for(c, 1));
        let partly = with_ops(s, repeated_op(unit_op(c), before));
        assert(step(partly, instruction_for(c, 1)) == Ok::<PlanState, CompileError>(
            with_op(partly, unit_op(c)),
        ));
        assert(s.blocks[s.current].ops + repeated_op(unit_op(c), before).push(unit_op(c))
            =~= (s.blocks[s.current].ops + repeated_op(unit_op(c), before)).push(unit_op(c)));
        assert(repeated_op(unit_op(c), before).push(unit_op(c)) =~= repeated_op(unit_op(c), n));
        assert(with_op(partly, unit_op(c)).blocks =~= with_ops(
            s,
            repeated_op(unit_op(c), n),
        ).blocks);
    }
}

/// A folded run leaves the code generator as its symbols do one by one:
/// from states that are alike, the one instruction of the run and the `n`
/// single instructions lead to states that are alike.
proof fn lemma_run_alike(s: PlanState, t: PlanState, c: char, n: nat)
    requires
        alike(s, t),
        pointed(s),
        pointed(t),
        is_run_symbol(c),
        n <= u64::MAX,
    ensures
        step(s, instruction_for(c, n)) is Ok,
        steps(t, units(c, n)) is Ok,
        alike(step(s, instruction_for(c, n))->Ok_0, steps(t, units(c, n))->Ok_0),
{
    lemma_units_steps(t, c, n);
    let s2 = step(s, instruction_for(c, n))->Ok_0;
    let t2 = with_ops(t, repeated_op(unit_op(c), n));
    assert(s2 == with_op(s, run_op(c, n)));
    let first = s.blocks[s.current].ops;
    let second = t.blocks[t.current].ops;
    assert(ops_alike(first, second));
    assert forall|m: MachineView, input: Seq<u8>| tape_in_bounds(m.tape) implies #[trigger] after_ops(
        m,
        first.push(run_op(c, n)),
        input,
    ) == after_ops(m, second + repeated_op(unit_op(c), n), input) by {
        assert(first.push(run_op(c, n)).drop_last() == first);
        assert(after_ops(m, first, input) == after_ops(m, second, input));
        lemma_ops_in_a_row(m, second, repeated_op(unit_op(c), n), input);
        lemma_ops_stay_in_bounds(m, second, input);
        lemma_units_fold(after_ops(m, second, input), c, n, input);
    }
    assert forall|b: int| 0 <= b < s2.blocks.len() implies (#[trigger] s2.blocks[b]).kind
        == t2.blocks[b].kind && s2.blocks[b].terminator == t2.blocks[b].terminator && ops_alike(
        s2.blocks[b].ops,
        t2.blocks[b].ops,
    ) by {
        assert(ops_alike(s.blocks[b].ops, t.blocks[b].ops));
    }
}

/// A stream of one instruction leads where the instruction leads.
proof fn lemma_one_step(s: PlanState, stream: Seq<Instruction>)
    requires
        stream.len() == 1,
    ensures
        steps(s, stream) == step(s, stream[0]),
{
    assert(stream.drop_last().len() == 0);
    assert(steps(s, stream.drop_last()) == Ok::<PlanState, CompileError>(s));
    assert(stream.last() == stream[0]);
}

/// Whether two outcomes of the code generator are alike: states that are
/// alike and point at blocks that exist, or the same error.
pub open spec fn outcomes_alike(
    first: Result<PlanState, CompileError>,
    second: Result<PlanState, CompileError>,
) -> bool {
    match (first, second) {
        (Ok(s), Ok(t)) => alike(s, t) && pointed(s) && pointed(t),
        (Err(e), Err(f)) => e == f,
        _ => false,
    }
}

/// Folding changes nothing for the code generator: from states that are
/// alike, the folded stream of a text and the text taken character by
/// character lead to states that are alike, or fail alike.
proof fn lemma_fold_alike(text: Seq<char>, s: PlanState, t: PlanState)
    requires
        alike(s, t),
        pointed(s),
        pointed(t),
        text.len() <= u64::MAX,
    ensures
        outcomes_alike(steps(s, scanned(text)), steps(t, unit_stream(text))),
    decreases text.len(),
{
    if text.len() == 0 {
        assert(unit_stream(text).len() == 0);
    } else {
        let c = text[0];
        let n = if is_run_symbol(c) {
            run_length(text, c)
        } else {
            1
        };
        lemma_run_length(text, c);
        let rest = text.skip(n as int);
        let head = instruction_for(c, n);
        assert(text.drop_first() == text.skip(1));
        assert(scanned(text) == seq![head] + scanned(rest));
        assert(unit_stream(text) =~= units(c, n) + unit_stream(rest));
        lemma_steps_in_a_row(s, seq![head], scanned(rest));
        lemma_steps_in_a_row(t, units(c, n), unit_stream(rest));
        lemma_one_step(s, seq![head]);
        if is_run_symbol(c) {
            lemma_run_alike(s, t, c, n);
        } else {
            lemma_step_alike(s, t, head);
            lemma_one_step(t, units(c, 1));
        }
        lemma_step_pointed(s, head);
        lemma_steps_pointed(t, units(c, n));
        match (step(s, head), steps(t, units(c, n))) {
            (Ok(s2), Ok(t2)) => {
                lemma_fold_alike(rest, s2, t2);
            },
            _ => {},
        }
    }
}

/// Whether two functions are alike: the same mode, block by block the
/// same terminator with targets that exist, and operations that do the
/// same.
pub open spec fn functions_alike(f: FunctionView, g: FunctionView) -> bool {
    &&& f.mode == g.mode
    &&& f.blocks.len() == g.blocks.len()
    &&& forall|b: int|
        0 <= b < f.blocks.len() ==> (#[trigger] f.blocks[b]).terminator == g.blocks[b].terminator
            && ops_alike(f.blocks[b].ops, g.blocks[b].ops) && match f.blocks[b].terminator {
            Terminator::Branch { exit, body } => exit < f.blocks.len() && body < f.blocks.len(),
            Terminator::Return => true,
        }
}

/// Functions that are alike run alike from every block.
pub proof fn lemma_ran_alike(
    f: FunctionView,
    g: FunctionView,
    m: MachineView,
    block: int,
    input: Seq<u8>,
    fuel: nat,
)
    requires
        functions_alike(f, g),
        0 <= block < f.blocks.len(),
        tape_in_bounds(m.tape),
    ensures
        ran(f, m, block, input, fuel) == ran(g, m, block, input, fuel),
    decreases fuel,
{
    if fuel > 0 {
        let after = after_ops(m, f.blocks[block].ops, input);
        assert(after == after_ops(m, g.blocks[block].ops, input));
        lemma_ops_stay_in_bounds(m, f.blocks[block].ops, input);
        match f.blocks[block].terminator {
            Terminator::Return => {},
            Terminator::Branch { exit, body } => {
                let next = if current_cell(after.tape) == 0 {
                    exit as int
                } else {
                    body as int
                };
                lemma_ran_alike(f, g, after, next, input, (fuel - 1) as nat);
            },
        }
    }
}

/// Folding keeps the behaviour. A text compiles to a function that runs as
/// the function does that the same text compiles to when it is taken
/// character by character, with no run folded: from every machine, on
/// every input, with every fuel. Where one of them has a bracket error, the
/// other has the same. The bound on the text is that of a machine that can
/// count its runs.
pub proof fn lemma_folding_keeps_behaviour(
    text: Seq<char>,
    mode: OutputMode,
    m: MachineView,
    input: Seq<u8>,
    fuel: nat,
)
    requires
        text.len() <= u64::MAX,
        tape_in_bounds(m.tape),
    ensures
        match (lowered(scanned(text), mode), lowered(unit_stream(text), mode)) {
            (Ok(f), Ok(g)) => ran(f, m, 0, input, fuel) == ran(g, m, 0, input, fuel),
            (Err(e), Err(f)) => e == f,
            _ => false,
        },
{
    assert(start().blocks[0].ops.len() == 0);
    lemma_fold_alike(text, start(), start());
    match (lowered(scanned(text), mode), lowered(unit_stream(text), mode)) {
        (Ok(f), Ok(g)) => {
            lemma_ran_alike(f, g, m, 0, input, fuel);
        },
        _ => {},
    }
}

/// The compiled function runs as the text is meant character by character.
/// For a text whose brackets match, the function that its folded stream
/// compiles to runs as an interpreter would that takes the text one
/// character at a time and jumps between matching brackets. The bound on
/// the text is that of a machine that can number the blocks.
pub proof fn lemma_compiled_runs_character_by_character(
    text: Seq<char>,
    mode: OutputMode,
    m: MachineView,
    input: Seq<u8>,
    fuel: nat,
)
    requires
        bracket_error(scanned(text)).is_none(),
        2 * text.len() + 1 <= usize::MAX,
        tape_in_bounds(m.tape),
    ensures
        lowered(scanned(text), mode) is Ok,
        ran(lowered(scanned(text), mode)->Ok_0, m, 0, input, fuel) == meant(
            unit_stream(text),
            mode,
            0,
            m,
            input,
            fuel,
        ),
{
    lemma_lowered_outcome(scanned(text), mode);
    lemma_folding_keeps_behaviour(text, mode, m, input, fuel);
    lemma_lowered_outcome(unit_stream(text), mode);
    lemma_lowering_keeps_meaning(unit_stream(text), mode, m, input, fuel);
}

/// The symbols of a text: the text without every character that is none of
/// the eight.
pub open spec fn symbols_of(text: Seq<char>) -> Seq<char>
    decreases text.len(),
{
    if text.len() == 0 {
        Seq::empty()
    } else if is_symbol(text.last()) {
        symbols_of(text.drop_last()).push(text.last())
    } else {
        symbols_of(text.drop_last())
    }
}

/// Taken character by character, the symbols of a text are the text
/// without its skips, and they are no more than the text holds.
proof fn lemma_symbols_are_what_is_not_skipped(text: Seq<char>)
    ensures
        unit_stream(symbols_of(text)) == without_skips(unit_stream(text)),
        symbols_of(text).len() <= text.len(),
    decreases text.len(),
{
    if text.len() == 0 {
        assert(unit_stream(symbols_of(text)) =~= without_skips(unit_stream(text)));
    } else {
        let front = text.drop_last();
        lemma_symbols_are_what_is_not_skipped(front);
        assert(unit_stream(text).drop_last() =~= unit_stream(front));
        assert(unit_stream(text).last() == instruction_for(text.last(), 1));
        if is_symbol(text.last()) {
            assert(unit_stream(symbols_of(front).push(text.last())) =~= unit_stream(
                symbols_of(front),
            ).push(instruction_for(text.last(), 1)));
        }
    }
}

/// Other characters change nothing. A text compiles to a function that
/// runs as the function does that the text compiles to once every
/// character that is none of the eight symbols is taken out of it, even
/// where that joins two runs into one. Where one of the two texts has a
/// bracket error, the other has the same. The bound on the text is that
/// of a machine that can count its runs.
pub proof fn lemma_other_characters_change_nothing(
    text: Seq<char>,
    mode: OutputMode,
    m: MachineView,
    input: Seq<u8>,
    fuel: nat,
)
    requires
        text.len() <= u64::MAX,
        tape_in_bounds(m.tape),
    ensures
        match (lowered(scanned(text), mode), lowered(scanned(symbols_of(text)), mode)) {
            (Ok(f), Ok(g)) => ran(f, m, 0, input, fuel) == ran(g, m, 0, input, fuel),
            (Err(e), Err(f)) => e == f,
            _ => false,
        },
{
    lemma_symbols_are_what_is_not_skipped(text);
    lemma_folding_keeps_behaviour(text, mode, m, input, fuel);
    lemma_skips_have_no_effect(unit_stream(text), mode);
    lemma_folding_keeps_behaviour(symbols_of(text), mode, m, input, fuel);
}

} // verus!
