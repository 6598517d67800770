use vstd::prelude::*;
use crate::codegen::{
    bracket_error, depth, empty_block, has_unmatched_close, lemma_opens_are_bounded,
    lemma_steps_shape, lemma_step_shape, lemma_steps_track_depth, lemma_straight_line,
    loop_opens, lowered, nesting_change, sound, start, step, steps, straight_ops, PlanState,
};
use crate::error::CompileError;
use crate::function::{BlockKind, BlockView, FunctionView, Op, OutputMode, Terminator};
use crate::instruction::Instruction;
use crate::loop_stack::LoopFrame;
use crate::machine::{after_op, after_ops, ran, widened, MachineView, RunView};
use crate::tape::{cell_plus, current_cell, TapeView, TAPE_SIZE};

verus! {

/// The operation that an instruction asks for, if it is one that edits the
/// tape, moves the pointer or calls the host.
pub open spec fn op_of(instruction: Instruction) -> Option<Op> {
    match instruction {
        Instruction::AddCell(n) => Some(Op::AddCell(n)),
        Instruction::SubCell(n) => Some(Op::SubCell(n)),
        Instruction::ShiftRight(n) => Some(Op::ShiftRight(n)),
        Instruction::ShiftLeft(n) => Some(Op::ShiftLeft(n)),
        Instruction::Output => Some(Op::Output),
        Instruction::Input => Some(Op::Input),
        _ => None,
    }
}

/// Whether an instruction opens or closes a loop.
pub open spec fn is_bracket(instruction: Instruction) -> bool {
    instruction == Instruction::LoopStart || instruction == Instruction::LoopEnd
}

/// How many loops are open before the instruction at position `p`.
pub open spec fn depth_at(stream: Seq<Instruction>, p: int) -> int {
    depth(stream.take(p))
}

/// The first position from `k` on after which the depth is `level`, or the
/// length of the stream if there is none.
pub open spec fn close_after(stream: Seq<Instruction>, k: int, level: int) -> int
    decreases stream.len() - k,
{
    if k >= stream.len() {
        stream.len() as int
    } else if depth_at(stream, k + 1) == level {
        k
    } else {
        close_after(stream, k + 1, level)
    }
}

/// The position of the loop-close that matches the loop-open at `open`.
pub open spec fn close_of(stream: Seq<Instruction>, open: int) -> int {
    close_after(stream, open + 1, depth_at(stream, open))
}

/// The last loop-open at or before `k` that has `level` loops open before
/// it, or -1 if there is none.
pub open spec fn open_before(stream: Seq<Instruction>, k: int, level: int) -> int
    decreases k + 1,
{
    if k < 0 {
        -1
    } else if stream[k] == Instruction::LoopStart && depth_at(stream, k) == level {
        k
    } else {
        open_before(stream, k - 1, level)
    }
}

/// The position of the loop-open that matches the loop-close at `close`.
pub open spec fn open_of(stream: Seq<Instruction>, close: int) -> int {
    open_before(stream, close - 1, depth_at(stream, close + 1))
}

/// What a stream means, told without any block: the run that starts at
/// position `pc`, with `fuel` loop tests still allowed.
///
/// An operation is done and the next instruction follows. A loop-open on a
/// zero cell continues behind its loop-close, and on any other cell with the
/// loop's body. A loop-close on a zero cell continues behind itself, and on
/// any other cell with the body again. The run returns at the end of the
/// stream.
pub open spec fn meant(
    stream: Seq<Instruction>,
    mode: OutputMode,
    pc: int,
    m: MachineView,
    input: Seq<u8>,
    fuel: nat,
) -> RunView
    decreases fuel, stream.len() - pc,
{
    if fuel == 0 {
        RunView { machine: m, finished: false, released: false }
    } else if pc < 0 || pc >= stream.len() {
        RunView { machine: m, finished: true, released: mode == OutputMode::Emit }
    } else {
        match stream[pc] {
            Instruction::LoopStart => meant(
                stream,
                mode,
                if current_cell(m.tape) == 0 {
                    close_of(stream, pc) + 1
                } else {
                    pc + 1
                },
                m,
                input,
                (fuel - 1) as nat,
            ),
            Instruction::LoopEnd => meant(
                stream,
                mode,
                if current_cell(m.tape) == 0 {
                    pc + 1
                } else {
                    open_of(stream, pc) + 1
                },
                m,
                input,
                (fuel - 1) as nat,
            ),
            Instruction::Skip => meant(stream, mode, pc + 1, m, input, fuel),
            other => meant(stream, mode, pc + 1, after_op(m, op_of(other)->Some_0, input), input, fuel),
        }
    }
}

/// What holds of the code generator between any two instructions, beyond
/// its soundness: the current block is still open at its end, no exit that
/// waits for its loop-close is the current block or waits twice, and each
/// of them is still empty.
pub open spec fn tidy(s: PlanState) -> bool {
    &&& sound(s)
    &&& s.blocks[s.current].terminator == Terminator::Return
    &&& forall|j: int| 0 <= j < s.open.len() ==> (#[trigger] s.open[j]).exit != s.current
    &&& forall|j: int, k: int|
        0 <= j < k < s.open.len() ==> (#[trigger] s.open[j]).exit != (#[trigger] s.open[k]).exit
    &&& forall|j: int|
        0 <= j < s.open.len() ==> s.blocks[(#[trigger] s.open[j]).exit as int] == empty_block(
            BlockKind::LoopExit,
        )
}

/// Whether block `b` can still change: it is the current block, it waits
/// for a loop-close, or it does not exist yet.
pub open spec fn live(s: PlanState, b: int) -> bool {
    ||| b == s.current
    ||| b >= s.blocks.len()
    ||| exists|j: int| 0 <= j < s.open.len() && (#[trigger] s.open[j]).exit == b
}

/// One step keeps the code generator tidy and leaves every block alone
/// that could no longer change.
proof fn lemma_step_tidy(s: PlanState, instruction: Instruction)
    requires
        tidy(s),
        s.blocks.len() + 2 <= usize::MAX,
    ensures
        match step(s, instruction) {
            Ok(t) => tidy(t) && forall|b: int|
                0 <= b && !live(s, b) ==> !#[trigger] live(t, b) && t.blocks[b] == s.blocks[b],
            Err(_) => true,
        },
{
    lemma_step_shape(s, instruction);
}

/// Whether a stream is one that the code generator walks to its end: no
/// loop-close comes unmatched, and the machine can number the blocks.
pub open spec fn walkable(stream: Seq<Instruction>) -> bool {
    !has_unmatched_close(stream) && 2 * stream.len() + 1 <= usize::MAX
}

/// The code generator before the instruction at position `p`.
pub open spec fn state_at(stream: Seq<Instruction>, p: int) -> PlanState {
    steps(start(), stream.take(p))->Ok_0
}

/// Before every position of a walkable stream the code generator is tidy,
/// holds as many open loops as the depth says and two blocks for each
/// loop-open passed, and one step leads from each position to the next.
proof fn lemma_state_at(stream: Seq<Instruction>, p: int)
    requires
        walkable(stream),
        0 <= p <= stream.len(),
    ensures
        steps(start(), stream.take(p)) is Ok,
        tidy(state_at(stream, p)),
        state_at(stream, p).open.len() == depth_at(stream, p),
        state_at(stream, p).blocks.len() == 1 + 2 * loop_opens(stream.take(p)),
        state_at(stream, p).blocks.len() + 2 <= usize::MAX || p == stream.len(),
        p < stream.len() ==> step(state_at(stream, p), stream[p]) == Ok::<
            PlanState,
            CompileError,
        >(state_at(stream, p + 1)),
    decreases p,
{
    let prefix = stream.take(p);
    lemma_steps_track_depth(prefix);
    if has_unmatched_close(prefix) {
        let k = choose|k: int| 0 <= k <= prefix.len() && depth(#[trigger] prefix.take(k)) < 0;
        assert(prefix.take(k) == stream.take(k));
    }
    lemma_steps_shape(prefix);
    lemma_opens_are_bounded(prefix);
    if p > 0 {
        lemma_state_at(stream, p - 1);
        lemma_step_tidy(state_at(stream, p - 1), stream[p - 1]);
    }
    if p < stream.len() {
        assert(stream.take(p + 1).drop_last() == prefix);
    }
}

/// A block that can no longer change before position `p` is the same
/// before every later position.
proof fn lemma_frozen(stream: Seq<Instruction>, p: int, later: int, b: int)
    requires
        walkable(stream),
        0 <= p <= later <= stream.len(),
        0 <= b,
        !live(state_at(stream, p), b),
    ensures
        !live(state_at(stream, later), b),
        state_at(stream, later).blocks[b] == state_at(stream, p).blocks[b],
    decreases later - p,
{
    if p < later {
        lemma_frozen(stream, p, later - 1, b);
        lemma_state_at(stream, later - 1);
        lemma_step_tidy(state_at(stream, later - 1), stream[later - 1]);
    }
}

/// The depth grows by one behind a loop-open, falls by one behind a
/// loop-close and stays behind anything else.
proof fn lemma_depth_step(stream: Seq<Instruction>, p: int)
    requires
        0 <= p < stream.len(),
    ensures
        depth_at(stream, p + 1) == depth_at(stream, p) + nesting_change(stream[p]),
{
    assert(stream.take(p + 1).drop_last() == stream.take(p));
}

/// The frame that the loop-open at position `open` puts on the stack: the
/// two blocks that are made for it.
pub open spec fn frame_of(stream: Seq<Instruction>, open: int) -> LoopFrame {
    LoopFrame {
        body: state_at(stream, open).blocks.len() as usize,
        exit: (state_at(stream, open).blocks.len() + 1) as usize,
    }
}

/// Where the frames on the stack come from: the frame at height `j` is
/// that of the last loop-open before `p` that had `j` loops open before it.
proof fn lemma_open_frames(stream: Seq<Instruction>, p: int, j: int)
    requires
        walkable(stream),
        0 <= p <= stream.len(),
        0 <= j < depth_at(stream, p),
    ensures
        0 <= open_before(stream, p - 1, j) < p,
        stream[open_before(stream, p - 1, j)] == Instruction::LoopStart,
        depth_at(stream, open_before(stream, p - 1, j)) == j,
        state_at(stream, p).open[j] == frame_of(stream, open_before(stream, p - 1, j)),
    decreases p,
{
    lemma_state_at(stream, p);
    if p > 0 {
        lemma_state_at(stream, p - 1);
        lemma_depth_step(stream, p - 1);
        if stream[p - 1] != Instruction::LoopStart || depth_at(stream, p - 1) != j {
            lemma_open_frames(stream, p - 1, j);
        }
    }
}

/// From a position inside the loop that the loop-open at `open` starts, the
/// scan for the depth before that loop-open stops at a loop-close, and the
/// frame on top of the stack there is the one that `open` put there.
proof fn lemma_close_scan(stream: Seq<Instruction>, open: int, p: int)
    requires
        walkable(stream),
        depth(stream) == 0,
        0 <= open < p <= stream.len(),
        depth_at(stream, open) >= 0,
        depth_at(stream, p) >= depth_at(stream, open) + 1,
        open_before(stream, p - 1, depth_at(stream, open)) == open,
    ensures
        p <= close_after(stream, p, depth_at(stream, open)) < stream.len(),
        stream[close_after(stream, p, depth_at(stream, open))] == Instruction::LoopEnd,
        state_at(stream, close_after(stream, p, depth_at(stream, open))).open.last() == frame_of(
            stream,
            open,
        ),
    decreases stream.len() - p,
{
    let level = depth_at(stream, open);
    if p == stream.len() {
        assert(stream.take(p) == stream);
    } else {
        lemma_depth_step(stream, p);
        if depth_at(stream, p + 1) == level {
            lemma_state_at(stream, p);
            lemma_open_frames(stream, p, level);
        } else {
            lemma_close_scan(stream, open, p + 1);
        }
    }
}

/// The loop-close that matches a loop-open: it lies behind the loop-open,
/// and the frame it takes off the stack is the one the loop-open put there.
pub proof fn lemma_close_of(stream: Seq<Instruction>, open: int)
    requires
        walkable(stream),
        depth(stream) == 0,
        0 <= open < stream.len(),
        stream[open] == Instruction::LoopStart,
    ensures
        open < close_of(stream, open) < stream.len(),
        stream[close_of(stream, open)] == Instruction::LoopEnd,
        state_at(stream, close_of(stream, open)).open.last() == frame_of(stream, open),
{
    lemma_state_at(stream, open);
    lemma_depth_step(stream, open);
    lemma_close_scan(stream, open, open + 1);
}

/// The loop-open that matches a loop-close: it lies before the loop-close,
/// and the frame the loop-close takes off the stack is the one it put
/// there.
pub proof fn lemma_open_of(stream: Seq<Instruction>, close: int)
    requires
        walkable(stream),
        0 <= close < stream.len(),
        stream[close] == Instruction::LoopEnd,
    ensures
        0 <= open_of(stream, close) < close,
        stream[open_of(stream, close)] == Instruction::LoopStart,
        state_at(stream, close).open.len() > 0,
        state_at(stream, close).open.last() == frame_of(stream, open_of(stream, close)),
{
    lemma_state_at(stream, close);
    lemma_depth_step(stream, close);
    lemma_open_frames(stream, close, depth_at(stream, close) - 1);
}

/// The block that receives what stands at position `p`.
pub open spec fn block_at(stream: Seq<Instruction>, p: int) -> int {
    state_at(stream, p).current
}

/// Behind a loop-open the current block is the loop's body, and the body
/// and the exit of its frame are the two blocks made for it.
proof fn lemma_behind_open(stream: Seq<Instruction>, open: int)
    requires
        walkable(stream),
        0 <= open < stream.len(),
        stream[open] == Instruction::LoopStart,
    ensures
        block_at(stream, open + 1) == frame_of(stream, open).body,
        frame_of(stream, open).exit == frame_of(stream, open).body + 1,
{
    lemma_state_at(stream, open);
}

/// The first position from `a` on that holds a loop-open or a loop-close,
/// or the length of the stream if there is none.
pub open spec fn next_bracket(stream: Seq<Instruction>, a: int) -> int
    decreases stream.len() - a,
{
    if a >= stream.len() {
        stream.len() as int
    } else if a >= 0 && is_bracket(stream[a]) {
        a
    } else {
        next_bracket(stream, a + 1)
    }
}

/// Whether a block starts at position `a`: at the start of the stream and
/// behind every loop-open and loop-close.
pub open spec fn starts_segment(stream: Seq<Instruction>, a: int) -> bool {
    0 <= a <= stream.len() && (a == 0 || is_bracket(stream[a - 1]))
}

/// Nothing between a position and the next bracket is a bracket.
proof fn lemma_next_bracket(stream: Seq<Instruction>, a: int)
    requires
        0 <= a <= stream.len(),
    ensures
        a <= next_bracket(stream, a) <= stream.len(),
        forall|x: int| a <= x < next_bracket(stream, a) ==> !is_bracket(#[trigger] stream[x]),
        next_bracket(stream, a) < stream.len() ==> is_bracket(stream[next_bracket(stream, a)]),
    decreases stream.len() - a,
{
    if a < stream.len() && !is_bracket(stream[a]) {
        lemma_next_bracket(stream, a + 1);
    }
}

/// Where a block starts, it is still empty.
proof fn lemma_fresh_block(stream: Seq<Instruction>, a: int)
    requires
        walkable(stream),
        starts_segment(stream, a),
    ensures
        state_at(stream, a).blocks[block_at(stream, a)].ops == Seq::<Op>::empty(),
{
    lemma_state_at(stream, a);
    if a > 0 {
        lemma_state_at(stream, a - 1);
    }
}

/// Up to the next bracket the current block stays the same and takes the
/// operations met, in order.
proof fn lemma_segment(stream: Seq<Instruction>, a: int, p: int)
    requires
        walkable(stream),
        starts_segment(stream, a),
        a <= p <= next_bracket(stream, a),
    ensures
        block_at(stream, p) == block_at(stream, a),
        state_at(stream, p).blocks[block_at(stream, a)].ops == straight_ops(
            stream.subrange(a, p),
        ),
    decreases p - a,
{
    lemma_next_bracket(stream, a);
    if p == a {
        lemma_fresh_block(stream, a);
    } else {
        lemma_segment(stream, a, p - 1);
        lemma_state_at(stream, p - 1);
        assert(stream.subrange(a, p).drop_last() == stream.subrange(a, p - 1));
    }
}

/// The blocks when the whole stream has been walked.
pub open spec fn final_blocks(stream: Seq<Instruction>) -> Seq<BlockView> {
    state_at(stream, stream.len() as int).blocks
}

/// What the block that starts at position `a` holds in the end: the
/// operations up to the next bracket, and a terminator that follows the
/// bracket. At the end of the stream it returns. At a loop-open it goes to
/// the block behind the matching loop-close or into the body. At a
/// loop-close it goes to the block behind it or back into the body.
pub proof fn lemma_segment_block(stream: Seq<Instruction>, a: int)
    requires
        walkable(stream),
        depth(stream) == 0,
        starts_segment(stream, a),
    ensures
        0 <= block_at(stream, a) < final_blocks(stream).len(),
        final_blocks(stream)[block_at(stream, a)].ops == straight_ops(
            stream.subrange(a, next_bracket(stream, a)),
        ),
        next_bracket(stream, a) == stream.len() ==> final_blocks(stream)[block_at(
            stream,
            a,
        )].terminator == Terminator::Return,
        next_bracket(stream, a) < stream.len() && stream[next_bracket(stream, a)]
            == Instruction::LoopStart ==> final_blocks(stream)[block_at(stream, a)].terminator
            == (Terminator::Branch {
            exit: block_at(stream, close_of(stream, next_bracket(stream, a)) + 1) as usize,
            body: block_at(stream, next_bracket(stream, a) + 1) as usize,
        }) && 0 <= block_at(stream, close_of(stream, next_bracket(stream, a)) + 1)
            <= usize::MAX && 0 <= block_at(stream, next_bracket(stream, a) + 1) <= usize::MAX,
        next_bracket(stream, a) < stream.len() && stream[next_bracket(stream, a)]
            == Instruction::LoopEnd ==> final_blocks(stream)[block_at(stream, a)].terminator
            == (Terminator::Branch {
            exit: block_at(stream, next_bracket(stream, a) + 1) as usize,
            body: block_at(stream, open_of(stream, next_bracket(stream, a)) + 1) as usize,
        }) && 0 <= block_at(stream, open_of(stream, next_bracket(stream, a)) + 1)
            <= usize::MAX && 0 <= block_at(stream, next_bracket(stream, a) + 1) <= usize::MAX,
{
    let q = next_bracket(stream, a);
    let end = stream.len() as int;
    lemma_next_bracket(stream, a);
    lemma_segment(stream, a, q);
    lemma_state_at(stream, a);
    lemma_state_at(stream, q);
    lemma_state_at(stream, end);
    if q < end {
        lemma_state_at(stream, q + 1);
        if stream[q] == Instruction::LoopStart {
            lemma_close_of(stream, q);
            lemma_behind_open(stream, q);
            lemma_state_at(stream, close_of(stream, q));
            lemma_state_at(stream, close_of(stream, q) + 1);
        } else {
            lemma_open_of(stream, q);
            lemma_behind_open(stream, open_of(stream, q));
            lemma_state_at(stream, open_of(stream, q) + 1);
        }
        // The block was left at the bracket and nothing can change it now.
        assert(!live(state_at(stream, q + 1), block_at(stream, a)));
        lemma_frozen(stream, q + 1, end, block_at(stream, a));
    }
}

/// Between the start of a block and the next bracket a run does the
/// operations that the block holds, one after another.
proof fn lemma_meant_segment(
    stream: Seq<Instruction>,
    mode: OutputMode,
    a: int,
    p: int,
    m: MachineView,
    input: Seq<u8>,
    fuel: nat,
)
    requires
        0 <= a <= p <= next_bracket(stream, a),
        a <= stream.len(),
        fuel > 0,
    ensures
        meant(
            stream,
            mode,
            p,
            after_ops(m, straight_ops(stream.subrange(a, p)), input),
            input,
            fuel,
        ) == meant(
            stream,
            mode,
            next_bracket(stream, a),
            after_ops(m, straight_ops(stream.subrange(a, next_bracket(stream, a))), input),
            input,
            fuel,
        ),
    decreases next_bracket(stream, a) - p,
{
    lemma_next_bracket(stream, a);
    if p < next_bracket(stream, a) {
        let front = straight_ops(stream.subrange(a, p));
        assert(stream.subrange(a, p + 1).drop_last() == stream.subrange(a, p));
        if stream[p] != Instruction::Skip {
            let op = op_of(stream[p])->Some_0;
            assert(front.push(op).drop_last() == front);
        }
        lemma_meant_segment(stream, mode, a, p + 1, m, input, fuel);
    }
}

/// From the start of any block, the run of the compiled blocks is the run
/// that the stream means.
proof fn lemma_block_runs_as_meant(
    stream: Seq<Instruction>,
    mode: OutputMode,
    a: int,
    m: MachineView,
    input: Seq<u8>,
    fuel: nat,
)
    requires
        walkable(stream),
        depth(stream) == 0,
        starts_segment(stream, a),
    ensures
        ran(
            FunctionView { blocks: final_blocks(stream), mode },
            m,
            block_at(stream, a),
            input,
            fuel,
        ) == meant(stream, mode, a, m, input, fuel),
    decreases fuel,
{
    if fuel > 0 {
        let q = next_bracket(stream, a);
        lemma_next_bracket(stream, a);
        lemma_segment_block(stream, a);
        lemma_meant_segment(stream, mode, a, a, m, input, fuel);
        // The machine when the block's operations are done.
        let after = after_ops(m, straight_ops(stream.subrange(a, q)), input);
        if q < stream.len() {
            if stream[q] == Instruction::LoopStart {
                lemma_close_of(stream, q);
                let next = if current_cell(after.tape) == 0 {
                    close_of(stream, q) + 1
                } else {
                    q + 1
                };
                lemma_block_runs_as_meant(stream, mode, next, after, input, (fuel - 1) as nat);
            } else {
                lemma_open_of(stream, q);
                let next = if current_cell(after.tape) == 0 {
                    q + 1
                } else {
                    open_of(stream, q) + 1
                };
                lemma_block_runs_as_meant(stream, mode, next, after, input, (fuel - 1) as nat);
            }
        }
    }
}

/// Lowering keeps the meaning. Whatever the tape, the input and the fuel,
/// the function that a stream with matched brackets compiles to runs as the
/// stream itself is meant to run. The bound on the stream is that of a
/// machine that can number the blocks.
pub proof fn lemma_lowering_keeps_meaning(
    stream: Seq<Instruction>,
    mode: OutputMode,
    m: MachineView,
    input: Seq<u8>,
    fuel: nat,
)
    requires
        bracket_error(stream).is_none(),
        2 * stream.len() + 1 <= usize::MAX,
    ensures
        lowered(stream, mode) is Ok,
        ran(lowered(stream, mode)->Ok_0, m, 0, input, fuel) == meant(
            stream,
            mode,
            0,
            m,
            input,
            fuel,
        ),
{
    lemma_steps_track_depth(stream);
    assert(stream.take(stream.len() as int) == stream);
    lemma_block_runs_as_meant(stream, mode, 0, m, input, fuel);
}

/// Whether only blocks that can still change are without a branch: every
/// block that would return is the current block or waits for its
/// loop-close.
pub open spec fn ended(s: PlanState) -> bool {
    forall|b: int|
        0 <= b < s.blocks.len() && (#[trigger] s.blocks[b]).terminator == Terminator::Return
            ==> live(s, b)
}

/// One step leaves no block without a branch but the current one and
/// those that wait.
proof fn lemma_step_ended(s: PlanState, instruction: Instruction)
    requires
        tidy(s),
        ended(s),
        s.blocks.len() + 2 <= usize::MAX,
    ensures
        step(s, instruction) matches Ok(t) ==> ended(t),
{
    match step(s, instruction) {
        Ok(t) => {
            assert forall|b: int|
                0 <= b < t.blocks.len() && (#[trigger] t.blocks[b]).terminator
                    == Terminator::Return implies live(t, b) by {
                if b < s.blocks.len() && b != s.current {
                    // The block was there, is not the one that the step
                    // ends, and so waits as it did.
                    assert(t.blocks[b] == s.blocks[b]);
                    assert(live(s, b));
                    let j = choose|j: int|
                        0 <= j < s.open.len() && (#[trigger] s.open[j]).exit == b;
                    if instruction == Instruction::LoopEnd {
                        assert(s.open.last() == s.open[s.open.len() - 1]);
                        if j < s.open.len() - 1 {
                            assert(t.open[j] == s.open[j]);
                        }
                    } else {
                        assert(t.open[j] == s.open[j]);
                    }
                } else if b < s.blocks.len() {
                    // The current block: a bracket gives it a branch, and
                    // anything else leaves it current.
                    if instruction == Instruction::LoopStart || instruction
                        == Instruction::LoopEnd {
                        assert(t.blocks[b].terminator != Terminator::Return);
                    }
                } else {
                    // A new block: the body is current, the exit waits.
                    if b == s.blocks.len() + 1 {
                        assert(t.open[t.open.len() - 1].exit == b);
                    }
                }
            }
        },
        Err(_) => {},
    }
}

/// Before every position of a walkable stream, only the current block and
/// the exits that wait are without a branch.
proof fn lemma_state_ended(stream: Seq<Instruction>, p: int)
    requires
        walkable(stream),
        0 <= p <= stream.len(),
    ensures
        ended(state_at(stream, p)),
    decreases p,
{
    lemma_state_at(stream, p);
    if p == 0 {
        assert(stream.take(0).len() == 0);
        assert(state_at(stream, 0) == start());
    } else {
        lemma_state_at(stream, p - 1);
        lemma_state_ended(stream, p - 1);
        lemma_step_ended(state_at(stream, p - 1), stream[p - 1]);
    }
}

/// Whether block `r` of a function returns and no other block does.
pub open spec fn returns_only_at(f: FunctionView, r: int) -> bool {
    0 <= r < f.blocks.len() && forall|b: int|
        0 <= b < f.blocks.len() ==> ((#[trigger] f.blocks[b]).terminator == Terminator::Return
            <==> b == r)
}

/// One block carries the epilogue and no other. In the function that a
/// stream with matched brackets compiles to, exactly one block returns;
/// every other block ends in the test of a loop. The bound on the stream is
/// that of a machine that can number the blocks.
pub proof fn lemma_one_block_returns(stream: Seq<Instruction>, mode: OutputMode)
    requires
        bracket_error(stream).is_none(),
        2 * stream.len() + 1 <= usize::MAX,
    ensures
        lowered(stream, mode) is Ok,
        exists|r: int| #[trigger] returns_only_at(lowered(stream, mode)->Ok_0, r),
{
    lemma_steps_track_depth(stream);
    let end = stream.len() as int;
    assert(stream.take(end) == stream);
    lemma_state_at(stream, end);
    lemma_state_ended(stream, end);
    let s = state_at(stream, end);
    let f = lowered(stream, mode)->Ok_0;
    assert(f.blocks == s.blocks);
    assert forall|b: int| 0 <= b < f.blocks.len() implies ((#[trigger] f.blocks[b]).terminator
        == Terminator::Return <==> b == s.current) by {
        if f.blocks[b].terminator == Terminator::Return {
            assert(live(s, b));
        }
    }
    assert(returns_only_at(f, s.current));
}

/// A program that sets a cell to `n` and then counts it down in a loop:
/// `n` times `+`, then `[-]`.
pub open spec fn countdown(n: u8) -> Seq<Instruction> {
    seq![
        Instruction::AddCell(n),
        Instruction::LoopStart,
        Instruction::SubCell(1),
        Instruction::LoopEnd,
    ]
}

/// Whether a tape has all its cells and its pointer on one of them.
pub open spec fn tape_in_bounds(t: TapeView) -> bool {
    t.cells.len() == TAPE_SIZE && 0 <= t.pointer < TAPE_SIZE
}

/// The brackets of a countdown match each other, and no close comes first.
proof fn lemma_countdown_brackets(n: u8)
    ensures
        close_of(countdown(n), 1) == 3,
        open_of(countdown(n), 3) == 1,
        bracket_error(countdown(n)).is_none(),
{
    let s = countdown(n);
    lemma_depth_step(s, 0);
    lemma_depth_step(s, 1);
    lemma_depth_step(s, 2);
    lemma_depth_step(s, 3);
    assert(close_after(s, 3, 0) == 3);
    assert(open_before(s, 1, 0) == 1);
}

/// Inside the loop of a countdown, a cell that holds `c` is zero after `c`
/// rounds, and the run returns if it may test the cell once more than that.
proof fn lemma_countdown_body(
    n: u8,
    mode: OutputMode,
    m: MachineView,
    input: Seq<u8>,
    fuel: nat,
)
    requires
        tape_in_bounds(m.tape),
        current_cell(m.tape) >= 1,
        fuel >= current_cell(m.tape) + 1,
    ensures
        meant(countdown(n), mode, 2, m, input, fuel).finished,
        current_cell(meant(countdown(n), mode, 2, m, input, fuel).machine.tape) == 0,
        meant(countdown(n), mode, 2, m, input, fuel).machine.tape.pointer == m.tape.pointer,
    decreases current_cell(m.tape),
{
    let s = countdown(n);
    lemma_countdown_brackets(n);
    let after = after_op(m, Op::SubCell(1), input);
    assert(meant(s, mode, 2, m, input, fuel) == meant(s, mode, 3, after, input, fuel));
    if current_cell(after.tape) == 0 {
        assert(meant(s, mode, 3, after, input, fuel) == meant(
            s,
            mode,
            4,
            after,
            input,
            (fuel - 1) as nat,
        ));
    } else {
        lemma_countdown_body(n, mode, after, input, (fuel - 1) as nat);
    }
}

/// A loop that counts a cell down ends. On a blank cell, `n` times `+`
/// followed by `[-]` returns, within `n + 2` loop tests, with the cell at
/// zero and the pointer where it was. The same then holds of the function
/// that the program compiles to.
pub proof fn lemma_countdown_ends(
    n: u8,
    mode: OutputMode,
    m: MachineView,
    input: Seq<u8>,
    fuel: nat,
)
    requires
        tape_in_bounds(m.tape),
        current_cell(m.tape) == 0,
        fuel >= n + 2,
    ensures
        meant(countdown(n), mode, 0, m, input, fuel).finished,
        current_cell(meant(countdown(n), mode, 0, m, input, fuel).machine.tape) == 0,
        meant(countdown(n), mode, 0, m, input, fuel).machine.tape.pointer == m.tape.pointer,
        lowered(countdown(n), mode) is Ok,
        ran(lowered(countdown(n), mode)->Ok_0, m, 0, input, fuel) == meant(
            countdown(n),
            mode,
            0,
            m,
            input,
            fuel,
        ),
{
    let s = countdown(n);
    lemma_countdown_brackets(n);
    let set = after_op(m, Op::AddCell(n), input);
    assert(meant(s, mode, 0, m, input, fuel) == meant(s, mode, 1, set, input, fuel));
    if n == 0 {
        assert(meant(s, mode, 1, set, input, fuel) == meant(
            s,
            mode,
            4,
            set,
            input,
            (fuel - 1) as nat,
        ));
    } else {
        lemma_countdown_body(n, mode, set, input, (fuel - 1) as nat);
    }
    lemma_lowering_keeps_meaning(s, mode, m, input, fuel);
}

/// A program that writes two values: `a` times `+`, `.`, `b` times `+`,
/// `.`.
pub open spec fn two_outputs(a: u8, b: u8) -> Seq<Instruction> {
    seq![
        Instruction::AddCell(a),
        Instruction::Output,
        Instruction::AddCell(b),
        Instruction::Output,
    ]
}

/// Output passes on what the cell holds, once for each `.`. On a blank
/// cell the compiled function of `two_outputs(a, b)` calls the output
/// routine twice, first with `a` and then with the sum of `a` and `b`
/// modulo 256, both widened, and does nothing else to the output.
pub proof fn lemma_outputs_follow_the_cell(
    a: u8,
    b: u8,
    mode: OutputMode,
    m: MachineView,
    input: Seq<u8>,
    fuel: nat,
)
    requires
        tape_in_bounds(m.tape),
        current_cell(m.tape) == 0,
        fuel >= 1,
    ensures
        lowered(two_outputs(a, b), mode) is Ok,
        ran(lowered(two_outputs(a, b), mode)->Ok_0, m, 0, input, fuel).finished,
        ran(lowered(two_outputs(a, b), mode)->Ok_0, m, 0, input, fuel).machine.output
            == m.output.push(widened(a)).push(widened(cell_plus(a, b as int))),
{
    let s = two_outputs(a, b);
    lemma_straight_line(s, mode);
    let s3 = s.drop_last();
    let s2 = s3.drop_last();
    let s1 = s2.drop_last();
    let s0 = s1.drop_last();
    assert(s0.len() == 0);
    assert(straight_ops(s0) =~= Seq::<Op>::empty());
    assert(s1.last() == Instruction::AddCell(a));
    assert(s2.last() == Instruction::Output);
    assert(s3.last() == Instruction::AddCell(b));
    assert(s.last() == Instruction::Output);
    let ops = straight_ops(s);
    assert(straight_ops(s1) =~= seq![Op::AddCell(a)]);
    assert(straight_ops(s2) =~= seq![Op::AddCell(a), Op::Output]);
    assert(straight_ops(s3) =~= seq![Op::AddCell(a), Op::Output, Op::AddCell(b)]);
    assert(ops =~= seq![Op::AddCell(a), Op::Output, Op::AddCell(b), Op::Output]);
    let o3 = ops.drop_last();
    let o2 = o3.drop_last();
    let o1 = o2.drop_last();
    let o0 = o1.drop_last();
    assert(o0.len() == 0);
    assert(after_ops(m, o0, input) == m);
    assert(o1.last() == Op::AddCell(a));
    assert(o2.last() == Op::Output);
    assert(o3.last() == Op::AddCell(b));
    assert(ops.last() == Op::Output);
    let m1 = after_ops(m, o1, input);
    assert(m1 == after_op(m, Op::AddCell(a), input));
    assert(current_cell(m1.tape) == a);
    let m2 = after_ops(m, o2, input);
    assert(m2 == after_op(m1, Op::Output, input));
    let m3 = after_ops(m, o3, input);
    assert(m3 == after_op(m2, Op::AddCell(b), input));
    assert(current_cell(m3.tape) == cell_plus(a, b as int));
    assert(after_ops(m, ops, input) == after_op(m3, Op::Output, input));
}

} // verus!
