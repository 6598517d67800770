use vstd::prelude::*;
use crate::error::CompileError;
use crate::function::{
    block_views, is_loop_pair, kind_at, well_formed, Block, BlockKind, BlockView,
    CompiledFunction, FunctionView, Op, OutputMode, Terminator,
};
use crate::instruction::Instruction;
use crate::loop_stack::{LoopFrame, LoopStack};

verus! {

/// The code generator between two instructions: the blocks made so far, the
/// block that receives the next operation, and the loops that are open.
pub struct PlanState {
    pub blocks: Seq<BlockView>,
    pub current: int,
    pub open: Seq<LoopFrame>,
}

/// A block that holds nothing yet.
pub open spec fn empty_block(kind: BlockKind) -> BlockView {
    BlockView { kind, ops: Seq::empty(), terminator: Terminator::Return }
}

/// The state before the first instruction: an empty entry block.
pub open spec fn start() -> PlanState {
    PlanState { blocks: seq![empty_block(BlockKind::Entry)], current: 0, open: Seq::empty() }
}

/// Appends one operation to the current block.
pub open spec fn with_op(s: PlanState, op: Op) -> PlanState {
    let b = s.blocks[s.current];
    PlanState {
        blocks: s.blocks.update(
            s.current,
            BlockView { kind: b.kind, ops: b.ops.push(op), terminator: b.terminator },
        ),
        current: s.current,
        open: s.open,
    }
}

/// Ends the current block with the test of a loop: a zero cell leaves the
/// loop, any other value enters its body.
pub open spec fn with_branch(s: PlanState, frame: LoopFrame) -> Seq<BlockView> {
    let b = s.blocks[s.current];
    s.blocks.update(
        s.current,
        BlockView {
            kind: b.kind,
            ops: b.ops,
            terminator: Terminator::Branch { exit: frame.exit, body: frame.body },
        },
    )
}

/// What one instruction does to the code generator.
pub open spec fn step(s: PlanState, instruction: Instruction) -> Result<PlanState, CompileError> {
    match instruction {
        Instruction::AddCell(n) => Ok(with_op(s, Op::AddCell(n))),
        Instruction::SubCell(n) => Ok(with_op(s, Op::SubCell(n))),
        Instruction::ShiftRight(n) => Ok(with_op(s, Op::ShiftRight(n))),
        Instruction::ShiftLeft(n) => Ok(with_op(s, Op::ShiftLeft(n))),
        Instruction::Output => Ok(with_op(s, Op::Output)),
        Instruction::Input => Ok(with_op(s, Op::Input)),
        Instruction::Skip => Ok(s),
        Instruction::LoopStart => {
            let frame = LoopFrame {
                body: s.blocks.len() as usize,
                exit: (s.blocks.len() + 1) as usize,
            };
            Ok(
                PlanState {
                    blocks: with_branch(s, frame).push(empty_block(BlockKind::LoopBody)).push(
                        empty_block(BlockKind::LoopExit),
                    ),
                    current: frame.body as int,
                    open: s.open.push(frame),
                },
            )
        },
        Instruction::LoopEnd => {
            if s.open.len() == 0 {
                Err(CompileError::UnmatchedCloseBracket)
            } else {
                let frame = s.open.last();
                Ok(
                    PlanState {
                        blocks: with_branch(s, frame),
                        current: frame.exit as int,
                        open: s.open.drop_last(),
                    },
                )
            }
        },
    }
}

/// The state after a whole stream, or the error of the first instruction
/// that fails.
pub open spec fn steps(s: PlanState, stream: Seq<Instruction>) -> Result<PlanState, CompileError>
    decreases stream.len(),
{
    if stream.len() == 0 {
        Ok(s)
    } else {
        match steps(s, stream.drop_last()) {
            Ok(t) => step(t, stream.last()),
            Err(e) => Err(e),
        }
    }
}

/// The function that a stream compiles to. A stream that ends inside a loop
/// is rejected; otherwise the last block returns.
pub open spec fn lowered(stream: Seq<Instruction>, mode: OutputMode) -> Result<
    FunctionView,
    CompileError,
> {
    match steps(start(), stream) {
        Err(e) => Err(e),
        Ok(s) => if s.open.len() > 0 {
            Err(CompileError::UnmatchedOpenBracket)
        } else {
            Ok(FunctionView { blocks: s.blocks, mode })
        },
    }
}

/// How many loops an instruction opens, counting a close as minus one.
pub open spec fn nesting_change(instruction: Instruction) -> int {
    match instruction {
        Instruction::LoopStart => 1,
        Instruction::LoopEnd => -1,
        _ => 0,
    }
}

/// Loop-opens minus loop-closes over a whole stream.
pub open spec fn depth(stream: Seq<Instruction>) -> int
    decreases stream.len(),
{
    if stream.len() == 0 {
        0
    } else {
        depth(stream.drop_last()) + nesting_change(stream.last())
    }
}

/// Whether some loop-close of the stream has no loop-open before it to match.
pub open spec fn has_unmatched_close(stream: Seq<Instruction>) -> bool {
    exists|k: int| 0 <= k <= stream.len() && depth(#[trigger] stream.take(k)) < 0
}

/// The bracket error of a stream, if it has one. An unmatched close is met
/// first and wins over loops left open.
pub open spec fn bracket_error(stream: Seq<Instruction>) -> Option<CompileError> {
    if has_unmatched_close(stream) {
        Some(CompileError::UnmatchedCloseBracket)
    } else if depth(stream) > 0 {
        Some(CompileError::UnmatchedOpenBracket)
    } else {
        None
    }
}

/// What holds of the code generator between any two instructions.
pub open spec fn sound(s: PlanState) -> bool {
    &&& 0 <= s.current < s.blocks.len()
    &&& s.blocks.len() % 2 == 1
    &&& s.blocks.len() <= usize::MAX
    &&& forall|i: int| 0 <= i < s.blocks.len() ==> (#[trigger] s.blocks[i]).kind == kind_at(i)
    &&& forall|i: int|
        0 <= i < s.blocks.len() ==> match (#[trigger] s.blocks[i]).terminator {
            Terminator::Branch { exit, body } => is_loop_pair(
                body as int,
                exit as int,
                s.blocks.len() as int,
            ),
            Terminator::Return => true,
        }
    &&& forall|j: int|
        0 <= j < s.open.len() ==> is_loop_pair(
            (#[trigger] s.open[j]).body as int,
            s.open[j].exit as int,
            s.blocks.len() as int,
        )
}

/// Once an instruction has failed, the rest of the stream changes nothing.
proof fn lemma_error_is_final(s: PlanState, stream: Seq<Instruction>, k: int)
    requires
        0 <= k <= stream.len(),
        steps(s, stream.take(k)) is Err,
    ensures
        steps(s, stream) == steps(s, stream.take(k)),
    decreases stream.len() - k,
{
    if k == stream.len() {
        assert(stream.take(k) == stream);
    } else {
        assert(stream.take(k + 1).drop_last() == stream.take(k));
        lemma_error_is_final(s, stream, k + 1);
    }
}

/// The loops that are open after a stream are its opens minus its closes,
/// and the only instruction that can fail is a close with nothing open.
pub(crate) proof fn lemma_steps_track_depth(stream: Seq<Instruction>)
    ensures
        match steps(start(), stream) {
            Ok(s) => !has_unmatched_close(stream) && s.open.len() == depth(stream),
            Err(e) => e == CompileError::UnmatchedCloseBracket && has_unmatched_close(stream),
        },
    decreases stream.len(),
{
    if stream.len() == 0 {
        assert forall|k: int| 0 <= k <= stream.len() implies depth(#[trigger] stream.take(k))
            >= 0 by {
            assert(stream.take(k).len() == 0);
        }
    } else {
        let front = stream.drop_last();
        lemma_steps_track_depth(front);
        assert(stream.take(stream.len() as int) == stream);
        match steps(start(), front) {
            Err(e) => {
                let k = choose|k: int| 0 <= k <= front.len() && depth(#[trigger] front.take(k)) < 0;
                assert(stream.take(k) == front.take(k));
            },
            Ok(t) => {
                if step(t, stream.last()) is Ok {
                    assert forall|k: int| 0 <= k <= stream.len() implies depth(
                        #[trigger] stream.take(k),
                    ) >= 0 by {
                        if k < stream.len() {
                            assert(stream.take(k) == front.take(k));
                        }
                    }
                }
            },
        }
    }
}

/// A stream compiles exactly when its brackets match, and each bracket error
/// comes on exactly the streams that have it.
pub proof fn lemma_lowered_outcome(stream: Seq<Instruction>, mode: OutputMode)
    ensures
        match bracket_error(stream) {
            Some(e) => lowered(stream, mode) == Err::<FunctionView, CompileError>(e),
            None => lowered(stream, mode) is Ok,
        },
{
    lemma_steps_track_depth(stream);
}

/// How many loop-opens a stream holds.
pub open spec fn loop_opens(stream: Seq<Instruction>) -> nat
    decreases stream.len(),
{
    if stream.len() == 0 {
        0
    } else {
        loop_opens(stream.drop_last()) + if stream.last() == Instruction::LoopStart {
            1nat
        } else {
            0nat
        }
    }
}

/// How many loop-closes a stream holds.
pub open spec fn loop_closes(stream: Seq<Instruction>) -> nat
    decreases stream.len(),
{
    if stream.len() == 0 {
        0
    } else {
        loop_closes(stream.drop_last()) + if stream.last() == Instruction::LoopEnd {
            1nat
        } else {
            0nat
        }
    }
}

/// The depth after a stream is the number of its opens less that of its
/// closes.
pub proof fn lemma_depth_counts(stream: Seq<Instruction>)
    ensures
        depth(stream) == loop_opens(stream) - loop_closes(stream),
    decreases stream.len(),
{
    if stream.len() > 0 {
        lemma_depth_counts(stream.drop_last());
    }
}

/// A stream with more loop-closes than loop-opens, be it one more or many,
/// is rejected for its unmatched close.
pub proof fn lemma_extra_close_is_rejected(stream: Seq<Instruction>, mode: OutputMode)
    requires
        loop_closes(stream) > loop_opens(stream),
    ensures
        lowered(stream, mode) == Err::<FunctionView, CompileError>(
            CompileError::UnmatchedCloseBracket,
        ),
{
    lemma_depth_counts(stream);
    assert(stream.take(stream.len() as int) == stream);
    lemma_lowered_outcome(stream, mode);
}

/// A stream with more loop-opens than loop-closes, in which every close has
/// an open before it to match, is rejected for its unmatched open.
pub proof fn lemma_extra_open_is_rejected(stream: Seq<Instruction>, mode: OutputMode)
    requires
        loop_opens(stream) > loop_closes(stream),
        !has_unmatched_close(stream),
    ensures
        lowered(stream, mode) == Err::<FunctionView, CompileError>(
            CompileError::UnmatchedOpenBracket,
        ),
{
    lemma_depth_counts(stream);
    lemma_lowered_outcome(stream, mode);
}

/// One step keeps the code generator sound and adds two blocks for a
/// loop-open and none for anything else.
pub(crate) proof fn lemma_step_shape(s: PlanState, instruction: Instruction)
    requires
        sound(s),
        s.blocks.len() + 2 <= usize::MAX,
    ensures
        match step(s, instruction) {
            Ok(t) => sound(t) && t.blocks.len() == s.blocks.len() + if instruction
                == Instruction::LoopStart {
                2nat
            } else {
                0nat
            },
            Err(_) => true,
        },
{
    match step(s, instruction) {
        Ok(t) => {
            if instruction == Instruction::LoopStart {
                assert(t.open.last() == LoopFrame {
                    body: s.blocks.len() as usize,
                    exit: (s.blocks.len() + 1) as usize,
                });
                assert forall|j: int| 0 <= j < t.open.len() implies is_loop_pair(
                    (#[trigger] t.open[j]).body as int,
                    t.open[j].exit as int,
                    t.blocks.len() as int,
                ) by {
                    if j < s.open.len() {
                        assert(t.open[j] == s.open[j]);
                    }
                }
            } else if instruction == Instruction::LoopEnd {
                assert forall|j: int| 0 <= j < t.open.len() implies is_loop_pair(
                    (#[trigger] t.open[j]).body as int,
                    t.open[j].exit as int,
                    t.blocks.len() as int,
                ) by {
                    assert(t.open[j] == s.open[j]);
                }
            }
        },
        Err(_) => {},
    }
}

/// While its blocks can be numbered by the machine, the code generator
/// stays sound and holds one block and two more for each loop-open met.
pub(crate) proof fn lemma_steps_shape(stream: Seq<Instruction>)
    requires
        2 * stream.len() + 1 <= usize::MAX,
    ensures
        match steps(start(), stream) {
            Ok(s) => sound(s) && s.blocks.len() == 1 + 2 * loop_opens(stream),
            Err(_) => true,
        },
    decreases stream.len(),
{
    if stream.len() > 0 {
        let front = stream.drop_last();
        lemma_steps_shape(front);
        lemma_opens_are_bounded(front);
        match steps(start(), front) {
            Ok(t) => {
                lemma_step_shape(t, stream.last());
            },
            Err(_) => {},
        }
    }
}

/// A stream has no more loop-opens than instructions.
pub(crate) proof fn lemma_opens_are_bounded(stream: Seq<Instruction>)
    ensures
        loop_opens(stream) <= stream.len(),
    decreases stream.len(),
{
    if stream.len() > 0 {
        lemma_opens_are_bounded(stream.drop_last());
    }
}

/// The shape of what is compiled: an entry block and one pair of blocks for
/// each loop of the stream, with every branch between the two blocks of one
/// loop. The bound on the stream is that of a machine that can number the
/// blocks.
pub proof fn lemma_lowered_shape(stream: Seq<Instruction>, mode: OutputMode)
    requires
        2 * stream.len() + 1 <= usize::MAX,
    ensures
        match lowered(stream, mode) {
            Ok(f) => well_formed(f) && f.mode == mode && f.blocks.len() == 1 + 2 * loop_opens(
                stream,
            ),
            Err(_) => true,
        },
{
    lemma_steps_shape(stream);
}

/// A stream with its skips taken out.
pub open spec fn without_skips(stream: Seq<Instruction>) -> Seq<Instruction>
    decreases stream.len(),
{
    if stream.len() == 0 {
        Seq::empty()
    } else if stream.last() == Instruction::Skip {
        without_skips(stream.drop_last())
    } else {
        without_skips(stream.drop_last()).push(stream.last())
    }
}

/// Skips are never seen by the code generator: from any state, a stream
/// leads where the same stream without its skips leads.
proof fn lemma_skips_change_nothing(s: PlanState, stream: Seq<Instruction>)
    ensures
        steps(s, stream) == steps(s, without_skips(stream)),
    decreases stream.len(),
{
    if stream.len() > 0 {
        lemma_skips_change_nothing(s, stream.drop_last());
        if stream.last() != Instruction::Skip {
            let kept = without_skips(stream.drop_last());
            assert(kept.push(stream.last()).drop_last() == kept);
        }
    }
}

/// A skipped character has no effect: a stream compiles to what it compiles
/// to without its skips.
pub proof fn lemma_skips_have_no_effect(stream: Seq<Instruction>, mode: OutputMode)
    ensures
        lowered(stream, mode) == lowered(without_skips(stream), mode),
{
    lemma_skips_change_nothing(start(), stream);
}

/// The operations of a stream that holds no loop, in order. Skips give
/// none.
pub open spec fn straight_ops(stream: Seq<Instruction>) -> Seq<Op>
    decreases stream.len(),
{
    if stream.len() == 0 {
        Seq::empty()
    } else {
        let front = straight_ops(stream.drop_last());
        match stream.last() {
            Instruction::AddCell(n) => front.push(Op::AddCell(n)),
            Instruction::SubCell(n) => front.push(Op::SubCell(n)),
            Instruction::ShiftRight(n) => front.push(Op::ShiftRight(n)),
            Instruction::ShiftLeft(n) => front.push(Op::ShiftLeft(n)),
            Instruction::Output => front.push(Op::Output),
            Instruction::Input => front.push(Op::Input),
            _ => front,
        }
    }
}

/// Whether a stream holds neither a loop-open nor a loop-close.
pub open spec fn is_straight(stream: Seq<Instruction>) -> bool {
    forall|i: int|
        0 <= i < stream.len() ==> #[trigger] stream[i] != Instruction::LoopStart && stream[i]
            != Instruction::LoopEnd
}

/// Without loops no block is added: the stream's operations end up in the
/// entry block, in order.
pub(crate) proof fn lemma_straight_steps(stream: Seq<Instruction>)
    requires
        is_straight(stream),
    ensures
        steps(start(), stream) == Ok::<PlanState, CompileError>(
            PlanState {
                blocks: seq![
                    BlockView {
                        kind: BlockKind::Entry,
                        ops: straight_ops(stream),
                        terminator: Terminator::Return,
                    },
                ],
                current: 0,
                open: Seq::empty(),
            },
        ),
    decreases stream.len(),
{
    if stream.len() == 0 {
        assert(start().blocks =~= seq![
            BlockView {
                kind: BlockKind::Entry,
                ops: straight_ops(stream),
                terminator: Terminator::Return,
            },
        ]);
    } else {
        let front = stream.drop_last();
        assert forall|i: int| 0 <= i < front.len() implies #[trigger] front[i]
            != Instruction::LoopStart && front[i] != Instruction::LoopEnd by {
            assert(front[i] == stream[i]);
        }
        lemma_straight_steps(front);
        let before = steps(start(), front)->Ok_0;
        let after = step(before, stream.last())->Ok_0;
        assert(stream.last() == stream[stream.len() - 1]);
        assert(after.blocks =~= seq![
            BlockView {
                kind: BlockKind::Entry,
                ops: straight_ops(stream),
                terminator: Terminator::Return,
            },
        ]);
    }
}

/// A stream without loops compiles to one block that holds its operations
/// in order and returns.
pub proof fn lemma_straight_line(stream: Seq<Instruction>, mode: OutputMode)
    requires
        is_straight(stream),
    ensures
        lowered(stream, mode) == Ok::<FunctionView, CompileError>(
            FunctionView {
                blocks: seq![
                    BlockView {
                        kind: BlockKind::Entry,
                        ops: straight_ops(stream),
                        terminator: Terminator::Return,
                    },
                ],
                mode,
            },
        ),
{
    lemma_straight_steps(stream);
}

/// Lowers an instruction stream into the blocks of one function, in a
/// single pass from left to right. Nothing is produced unless every bracket
/// of the stream is matched.
pub fn lower(stream: &Vec<Instruction>, mode: OutputMode) -> (r: Result<
    CompiledFunction,
    CompileError,
>)
    ensures
        match r {
            Ok(f) => lowered(stream@, mode) == Ok::<FunctionView, CompileError>(f@),
            Err(e) => lowered(stream@, mode) == Err::<FunctionView, CompileError>(e),
        },
        match bracket_error(stream@) {
            Some(e) => r == Err::<CompiledFunction, CompileError>(e),
            None => r is Ok,
        },
{
    let mut blocks: Vec<Block> = Vec::new();
    blocks.push(Block { kind: BlockKind::Entry, ops: Vec::new(), terminator: Terminator::Return });
    let mut current: usize = 0;
    let mut stack = LoopStack::new();
    let ghost mut s = start();
    proof {
        lemma_lowered_outcome(stream@, mode);
        assert(block_views(blocks@) == s.blocks);
    }
    let mut i: usize = 0;
    while i < stream.len()
        invariant
            i <= stream.len(),
            steps(start(), stream@.take(i as int)) == Ok::<PlanState, CompileError>(s),
            block_views(blocks@) == s.blocks,
            current == s.current,
            stack@ == s.open,
            sound(s),
        decreases stream.len() - i,
    {
        let instruction = stream[i];
        let ghost before = s;
        proof {
            assert(stream@.take(i + 1).drop_last() == stream@.take(i as int));
            assert(stream@.take(i + 1).last() == instruction);
            assert(blocks@.len() == s.blocks.len());
            assert(blocks@[current as int]@ == s.blocks[current as int]);
        }
        match instruction {
            Instruction::AddCell(n) => {
                blocks[current].ops.push(Op::AddCell(n));
                proof {
                    s = with_op(s, Op::AddCell(n));
                }
            },
            Instruction::SubCell(n) => {
                blocks[current].ops.push(Op::SubCell(n));
                proof {
                    s = with_op(s, Op::SubCell(n));
                }
            },
            Instruction::ShiftRight(n) => {
                blocks[current].ops.push(Op::ShiftRight(n));
                proof {
                    s = with_op(s, Op::ShiftRight(n));
                }
            },
            Instruction::ShiftLeft(n) => {
                blocks[current].ops.push(Op::ShiftLeft(n));
                proof {
                    s = with_op(s, Op::ShiftLeft(n));
                }
            },
            Instruction::Output => {
                blocks[current].ops.push(Op::Output);
                proof {
                    s = with_op(s, Op::Output);
                }
            },
            Instruction::Input => {
                blocks[current].ops.push(Op::Input);
                proof {
                    s = with_op(s, Op::Input);
                }
            },
            Instruction::Skip => {},
            Instruction::LoopStart => {
                blocks.push(
                    Block {
                        kind: BlockKind::LoopBody,
                        ops: Vec::new(),
                        terminator: Terminator::Return,
                    },
                );
                blocks.push(
                    Block {
                        kind: BlockKind::LoopExit,
                        ops: Vec::new(),
                        terminator: Terminator::Return,
                    },
                );
                let exit: usize = blocks.len() - 1;
                let body: usize = exit - 1;
                let frame = LoopFrame { body, exit };
                blocks[current].terminator = Terminator::Branch { exit, body };
                stack.push(frame);
                current = body;
                proof {
                    s = step(before, instruction)->Ok_0;
                }
            },
            Instruction::LoopEnd => {
                match stack.pop() {
                    Ok(frame) => {
                        blocks[current].terminator = Terminator::Branch {
                            exit: frame.exit,
                            body: frame.body,
                        };
                        current = frame.exit;
                        proof {
                            s = step(before, instruction)->Ok_0;
                        }
                    },
                    Err(e) => {
                        proof {
                            lemma_error_is_final(start(), stream@, i + 1);
                            lemma_lowered_outcome(stream@, mode);
                        }
                        return Err(e);
                    },
                }
            },
        }
        proof {
            assert(step(before, instruction) == Ok::<PlanState, CompileError>(s));
            assert(block_views(blocks@) =~= s.blocks);
        }
        i += 1;
    }
    proof {
        assert(stream@.take(i as int) == stream@);
    }
    match stack.finish() {
        Err(e) => Err(e),
        Ok(()) => Ok(CompiledFunction::new(blocks, mode)),
    }
}

} // verus!
