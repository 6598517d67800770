use vstd::prelude::*;
use crate::codegen::{
    bracket_error, lemma_lowered_outcome, lemma_straight_steps, lowered, start, step, steps,
    straight_ops, PlanState,
};
use crate::function::{FunctionView, Op, OutputMode, Terminator};
use crate::instruction::Instruction;
use crate::machine::{after_op, after_ops, fresh, ran, widened, MachineView};
use crate::meaning::two_outputs;
use crate::scanner::{repeated, run_length, scanned};
use crate::tape::{cell_plus, current_cell};

verus! {

/// Whether a sequence begins with another.
pub open spec fn begins_with<A>(long: Seq<A>, short: Seq<A>) -> bool {
    short.len() <= long.len() && long.take(short.len() as int) == short
}

/// Whether the code generator points at blocks that exist: its current
/// block and the exit of every loop that is open.
pub open spec fn in_range(s: PlanState) -> bool {
    &&& 0 <= s.current < s.blocks.len()
    &&& forall|j: int| 0 <= j < s.open.len() ==> (#[trigger] s.open[j]).exit < s.blocks.len()
}

/// Whether state `t` holds all that state `s` holds: every block of `s` is
/// there in `t`, and its operations begin with those it had in `s`.
pub open spec fn grown(s: PlanState, t: PlanState) -> bool {
    &&& s.blocks.len() <= t.blocks.len()
    &&& forall|b: int|
        0 <= b < s.blocks.len() ==> begins_with(
            (#[trigger] t.blocks[b]).ops,
            s.blocks[b].ops,
        )
}

/// What begins with a sequence that begins with a third begins with the
/// third.
proof fn lemma_begins_with_chain<A>(long: Seq<A>, middle: Seq<A>, short: Seq<A>)
    requires
        begins_with(long, middle),
        begins_with(middle, short),
    ensures
        begins_with(long, short),
{
    assert(long.take(short.len() as int) =~= long.take(middle.len() as int).take(
        short.len() as int,
    ));
}

/// One instruction takes no operation back: it only adds operations to the
/// current block and blocks to the function.
proof fn lemma_step_grows(s: PlanState, instruction: Instruction)
    requires
        in_range(s),
    ensures
        step(s, instruction) matches Ok(t) ==> in_range(t) && grown(s, t),
{
    match step(s, instruction) {
        Ok(t) => {
            assert forall|b: int| 0 <= b < s.blocks.len() implies begins_with(
                (#[trigger] t.blocks[b]).ops,
                s.blocks[b].ops,
            ) by {
                assert(t.blocks[b].ops.take(s.blocks[b].ops.len() as int) =~= s.blocks[b].ops);
            }
            if instruction == Instruction::LoopStart {
                assert forall|j: int| 0 <= j < t.open.len() implies (#[trigger] t.open[j]).exit
                    < t.blocks.len() by {
                    if j < s.open.len() {
                        assert(t.open[j] == s.open[j]);
                    }
                }
            } else if instruction == Instruction::LoopEnd {
                assert(s.open.last() == s.open[s.open.len() - 1]);
                assert forall|j: int| 0 <= j < t.open.len() implies (#[trigger] t.open[j]).exit
                    < t.blocks.len() by {
                    assert(t.open[j] == s.open[j]);
                }
            }
        },
        Err(_) => {},
    }
}

/// A stream takes no operation back.
proof fn lemma_steps_grow(s: PlanState, stream: Seq<Instruction>)
    requires
        in_range(s),
    ensures
        steps(s, stream) matches Ok(t) ==> in_range(t) && grown(s, t),
    decreases stream.len(),
{
    if stream.len() == 0 {
        assert forall|b: int| 0 <= b < s.blocks.len() implies begins_with(
            (#[trigger] s.blocks[b]).ops,
            s.blocks[b].ops,
        ) by {
            assert(s.blocks[b].ops.take(s.blocks[b].ops.len() as int) =~= s.blocks[b].ops);
        }
    } else {
        lemma_steps_grow(s, stream.drop_last());
        match steps(s, stream.drop_last()) {
            Ok(before) => {
                lemma_step_grows(before, stream.last());
                match step(before, stream.last()) {
                    Ok(t) => {
                        assert forall|b: int| 0 <= b < s.blocks.len() implies begins_with(
                            (#[trigger] t.blocks[b]).ops,
                            s.blocks[b].ops,
                        ) by {
                            lemma_begins_with_chain(
                                t.blocks[b].ops,
                                before.blocks[b].ops,
                                s.blocks[b].ops,
                            );
                        }
                    },
                    Err(_) => {},
                }
            },
            Err(_) => {},
        }
    }
}

/// A stream done in two parts leads where it leads done at once.
pub(crate) proof fn lemma_steps_in_a_row(s: PlanState, first: Seq<Instruction>, second: Seq<Instruction>)
    ensures
        steps(s, first + second) == match steps(s, first) {
            Ok(t) => steps(t, second),
            Err(e) => Err(e),
        },
    decreases second.len(),
{
    if second.len() == 0 {
        assert(first + second == first);
    } else {
        lemma_steps_in_a_row(s, first, second.drop_last());
        assert((first + second).drop_last() == first + second.drop_last());
        assert((first + second).last() == second.last());
    }
}

/// Operations done in two parts leave the machine as they do done at once.
pub(crate) proof fn lemma_ops_in_a_row(m: MachineView, first: Seq<Op>, second: Seq<Op>, input: Seq<u8>)
    ensures
        after_ops(m, first + second, input) == after_ops(
            after_ops(m, first, input),
            second,
            input,
        ),
    decreases second.len(),
{
    if second.len() == 0 {
        assert(first + second == first);
    } else {
        lemma_ops_in_a_row(m, first, second.drop_last(), input);
        assert((first + second).drop_last() == first + second.drop_last());
        assert((first + second).last() == second.last());
    }
}

/// Operations never take back what has been passed to the output routine.
proof fn lemma_ops_keep_output(m: MachineView, ops: Seq<Op>, input: Seq<u8>)
    ensures
        begins_with(after_ops(m, ops, input).output, m.output),
    decreases ops.len(),
{
    if ops.len() == 0 {
        assert(m.output.take(m.output.len() as int) =~= m.output);
    } else {
        lemma_ops_keep_output(m, ops.drop_last(), input);
        let before = after_ops(m, ops.drop_last(), input);
        let after = after_op(before, ops.last(), input);
        assert(after.output.take(before.output.len() as int) =~= before.output);
        lemma_begins_with_chain(after.output, before.output, m.output);
    }
}

/// A run never takes back what has been passed to the output routine,
/// whatever blocks it goes through.
proof fn lemma_run_keeps_output(
    f: FunctionView,
    m: MachineView,
    block: int,
    input: Seq<u8>,
    fuel: nat,
)
    ensures
        begins_with(ran(f, m, block, input, fuel).machine.output, m.output),
    decreases fuel,
{
    if fuel == 0 {
        assert(m.output.take(m.output.len() as int) =~= m.output);
    } else {
        let after = after_ops(m, f.blocks[block].ops, input);
        lemma_ops_keep_output(m, f.blocks[block].ops, input);
        match f.blocks[block].terminator {
            Terminator::Return => {},
            Terminator::Branch { exit, body } => {
                let next = if current_cell(after.tape) == 0 {
                    exit as int
                } else {
                    body as int
                };
                lemma_run_keeps_output(f, after, next, input, (fuel - 1) as nat);
                lemma_begins_with_chain(
                    ran(f, after, next, input, (fuel - 1) as nat).machine.output,
                    after.output,
                    m.output,
                );
            },
        }
    }
}

/// On a fresh machine the four operations of `two_outputs(a, b)` pass `a`
/// and then the sum of `a` and `b` modulo 256 to the output routine.
proof fn lemma_two_outputs_done(a: u8, b: u8, input: Seq<u8>)
    ensures
        after_ops(fresh(), straight_ops(two_outputs(a, b)), input).output == seq![
            widened(a),
            widened(cell_plus(a, b as int)),
        ],
{
    let m = fresh();
    let s = two_outputs(a, b);
    let s3 = s.drop_last();
    let s2 = s3.drop_last();
    let s1 = s2.drop_last();
    let s0 = s1.drop_last();
    assert(s0.len() == 0);
    assert(straight_ops(s0) =~= Seq::<Op>::empty());
    assert(s1.last() == Instruction::AddCell(a));
    assert(s2.last() == Instruction::Output);
    assert(s3.last() == Instruction::AddCell(b));
    assert(s.last() == Instruction::Output);
    let ops = straight_ops(s);
    assert(straight_ops(s1) =~= seq![Op::AddCell(a)]);
    assert(straight_ops(s2) =~= seq![Op::AddCell(a), Op::Output]);
    assert(straight_ops(s3) =~= seq![Op::AddCell(a), Op::Output, Op::AddCell(b)]);
    assert(ops =~= seq![Op::AddCell(a), Op::Output, Op::AddCell(b), Op::Output]);
    let o3 = ops.drop_last();
    let o2 = o3.drop_last();
    let o1 = o2.drop_last();
    let o0 = o1.drop_last();
    assert(o0.len() == 0);
    assert(after_ops(m, o0, input) == m);
    assert(o1.last() == Op::AddCell(a));
    assert(o2.last() == Op::Output);
    assert(o3.last() == Op::AddCell(b));
    assert(ops.last() == Op::Output);
    let m1 = after_ops(m, o1, input);
    assert(m1 == after_op(m, Op::AddCell(a), input));
    assert(current_cell(m1.tape) == a);
    let m2 = after_ops(m, o2, input);
    assert(m2 == after_op(m1, Op::Output, input));
    let m3 = after_ops(m, o3, input);
    assert(m3 == after_op(m2, Op::AddCell(b), input));
    assert(current_cell(m3.tape) == cell_plus(a, b as int));
    let m4 = after_ops(m, ops, input);
    assert(m4 == after_op(m3, Op::Output, input));
    assert(m4.output =~= seq![widened(a), widened(cell_plus(a, b as int))]);
}

/// The first outputs do not depend on what follows. Whatever stands behind
/// `two_outputs(a, b)` in a stream whose brackets match, the compiled
/// function, once it runs at all, calls the output routine first with `a`
/// and then with the sum of `a` and `b` modulo 256. With no fuel it calls
/// nothing.
pub proof fn lemma_first_outputs(
    a: u8,
    b: u8,
    rest: Seq<Instruction>,
    mode: OutputMode,
    input: Seq<u8>,
    fuel: nat,
)
    requires
        bracket_error(two_outputs(a, b) + rest).is_none(),
    ensures
        lowered(two_outputs(a, b) + rest, mode) is Ok,
        fuel >= 1 ==> begins_with(
            ran(lowered(two_outputs(a, b) + rest, mode)->Ok_0, fresh(), 0, input, fuel).machine.output,
            seq![widened(a), widened(cell_plus(a, b as int))],
        ),
        fuel == 0 ==> ran(
            lowered(two_outputs(a, b) + rest, mode)->Ok_0,
            fresh(),
            0,
            input,
            fuel,
        ).machine.output == Seq::<i32>::empty(),
{
    let front = two_outputs(a, b);
    let stream = front + rest;
    lemma_lowered_outcome(stream, mode);
    let f = lowered(stream, mode)->Ok_0;
    if fuel >= 1 {
        // Behind the four instructions the entry block holds their four
        // operations, and nothing that follows takes them back.
        lemma_straight_steps(front);
        let s = steps(start(), front)->Ok_0;
        lemma_steps_in_a_row(start(), front, rest);
        lemma_steps_grow(s, rest);
        let entry = f.blocks[0].ops;
        let first = straight_ops(front);
        assert(begins_with(entry, first));
        let more = entry.skip(first.len() as int);
        assert(entry =~= first + more);
        // The run does the entry block first, and the rest of the run keeps
        // what the four operations have passed to the output routine.
        lemma_ops_in_a_row(fresh(), first, more, input);
        lemma_two_outputs_done(a, b, input);
        let done = after_ops(fresh(), first, input);
        lemma_ops_keep_output(done, more, input);
        let after = after_ops(fresh(), entry, input);
        let two = seq![widened(a), widened(cell_plus(a, b as int))];
        match f.blocks[0].terminator {
            Terminator::Return => {},
            Terminator::Branch { exit, body } => {
                let next = if current_cell(after.tape) == 0 {
                    exit as int
                } else {
                    body as int
                };
                lemma_run_keeps_output(f, after, next, input, (fuel - 1) as nat);
                lemma_begins_with_chain(
                    ran(f, after, next, input, (fuel - 1) as nat).machine.output,
                    after.output,
                    two,
                );
            },
        }
    }
}

/// A run of `n` copies of a symbol, followed by something that does not go
/// on with that symbol, has the length `n`.
proof fn lemma_run_of_repeated(c: char, n: nat, rest: Seq<char>)
    requires
        rest.len() == 0 || rest[0] != c,
    ensures
        run_length(repeated(c, n) + rest, c) == n,
    decreases n,
{
    let text = repeated(c, n) + rest;
    if n == 0 {
        assert(text =~= rest);
    } else {
        assert(text[0] == c);
        assert(text.drop_first() =~= repeated(c, (n - 1) as nat) + rest);
        lemma_run_of_repeated(c, (n - 1) as nat, rest);
    }
}

/// The text of a program that writes two values: `a` times `+`, `.`, `b`
/// times `+`, `.`, and then any text.
pub open spec fn two_outputs_text(a: nat, b: nat, rest: Seq<char>) -> Seq<char> {
    repeated('+', a) + seq!['.'] + repeated('+', b) + seq!['.'] + rest
}

/// Such a text scans to the four instructions of `two_outputs`, with the
/// counts kept modulo 256, and behind them to what the rest scans to: the
/// `.` at its end keeps the rest from joining its runs.
pub proof fn lemma_two_outputs_scanned(a: nat, b: nat, rest: Seq<char>)
    requires
        a >= 1,
        b >= 1,
    ensures
        scanned(two_outputs_text(a, b, rest)) == two_outputs((a % 256) as u8, (b % 256) as u8)
            + scanned(rest),
{
    let t4 = seq!['.'] + rest;
    let t3 = repeated('+', b) + t4;
    let t2 = seq!['.'] + t3;
    let t1 = repeated('+', a) + t2;
    assert(two_outputs_text(a, b, rest) =~= t1);
    assert(t4.drop_first() =~= rest);
    assert(scanned(t4) == seq![Instruction::Output] + scanned(rest));
    lemma_run_of_repeated('+', b, t4);
    assert(t3[0] == '+');
    assert(t3.skip(b as int) =~= t4);
    assert(scanned(t3) == seq![Instruction::AddCell((b % 256) as u8)] + scanned(t4));
    assert(t2.drop_first() =~= t3);
    assert(scanned(t2) == seq![Instruction::Output] + scanned(t3));
    lemma_run_of_repeated('+', a, t2);
    assert(t1[0] == '+');
    assert(t1.skip(a as int) =~= t2);
    assert(scanned(t1) == seq![Instruction::AddCell((a % 256) as u8)] + scanned(t2));
    assert(scanned(t1) =~= two_outputs((a % 256) as u8, (b % 256) as u8) + scanned(rest));
}

/// The first outputs of a program do not depend on the rest of its text.
/// A text that starts with `a` times `+`, `.`, `b` times `+`, `.` and whose
/// brackets match compiles to a function that, once it runs at all, calls
/// the output routine first with `a` and then with the sum of `a` and `b`,
/// both modulo 256, whatever text follows.
pub proof fn lemma_first_outputs_of_text(
    a: nat,
    b: nat,
    rest: Seq<char>,
    mode: OutputMode,
    input: Seq<u8>,
    fuel: nat,
)
    requires
        a >= 1,
        b >= 1,
        bracket_error(scanned(two_outputs_text(a, b, rest))).is_none(),
    ensures
        lowered(scanned(two_outputs_text(a, b, rest)), mode) is Ok,
        fuel >= 1 ==> begins_with(
            ran(
                lowered(scanned(two_outputs_text(a, b, rest)), mode)->Ok_0,
                fresh(),
                0,
                input,
                fuel,
            ).machine.output,
            seq![((a % 256) as u8) as i32, (((a + b) % 256) as u8) as i32],
        ),
{
    lemma_two_outputs_scanned(a, b, rest);
    let low_a = (a % 256) as u8;
    let low_b = (b % 256) as u8;
    lemma_first_outputs(low_a, low_b, scanned(rest), mode, input, fuel);
    assert(cell_plus(low_a, low_b as int) == ((a + b) % 256) as u8) by {
        vstd::arithmetic::div_mod::lemma_add_mod_noop(a as int, b as int, 256);
    }
}

} // verus!
