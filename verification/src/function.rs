use vstd::prelude::*;

verus! {

/// What becomes of the compiled function, which decides its epilogue.
#[derive(Clone, Copy, Debug, PartialEq, Eq, Structural)]
pub enum OutputMode {
    /// Run in this process; the function hands the tape back to its caller.
    Execute,
    /// Write an object file; the function frees the tape and returns a status.
    Emit,
}

/// One cell, pointer or host operation inside a block.
#[derive(Clone, Copy, Debug, PartialEq, Eq, Structural)]
pub enum Op {
    /// Add to the current cell, modulo 256.
    AddCell(u8),
    /// Subtract from the current cell, modulo 256.
    SubCell(u8),
    /// Move the pointer right around the ring.
    ShiftRight(u64),
    /// Move the pointer left around the ring.
    ShiftLeft(u64),
    /// Widen the current cell and pass it to the host's output routine.
    Output,
    /// Call the host's input routine and store its result, narrowed to a byte.
    Input,
}

/// How a block ends.
#[derive(Clone, Copy, Debug, PartialEq, Eq, Structural)]
pub enum Terminator {
    /// Read the current cell: zero goes to `exit`, anything else to `body`.
    Branch { exit: usize, body: usize },
    /// Leave the function through its epilogue.
    Return,
}

/// The role of a block in the function.
#[derive(Clone, Copy, Debug, PartialEq, Eq, Structural)]
pub enum BlockKind {
    /// Where the function starts.
    Entry,
    /// The first block of a loop's body.
    LoopBody,
    /// Where control continues after a loop.
    LoopExit,
}

/// A basic block: straight-line operations and one terminator.
#[derive(Debug, PartialEq, Eq)]
pub struct Block {
    pub kind: BlockKind,
    pub ops: Vec<Op>,
    pub terminator: Terminator,
}

/// The mathematical content of a block.
pub struct BlockView {
    pub kind: BlockKind,
    pub ops: Seq<Op>,
    pub terminator: Terminator,
}

impl View for Block {
    type V = BlockView;

    open spec fn view(&self) -> BlockView {
        BlockView { kind: self.kind, ops: self.ops@, terminator: self.terminator }
    }
}

/// The mathematical content of a compiled function.
pub struct FunctionView {
    pub blocks: Seq<BlockView>,
    pub mode: OutputMode,
}

/// The contents of a list of blocks.
pub open spec fn block_views(blocks: Seq<Block>) -> Seq<BlockView> {
    Seq::new(blocks.len(), |i: int| blocks[i]@)
}

/// The role that the block at `index` has: the entry comes first, then each
/// loop's body and exit side by side.
pub open spec fn kind_at(index: int) -> BlockKind {
    if index == 0 {
        BlockKind::Entry
    } else if index % 2 == 1 {
        BlockKind::LoopBody
    } else {
        BlockKind::LoopExit
    }
}

/// Whether `body` and `exit` are the two blocks of one loop among `count`
/// blocks.
pub open spec fn is_loop_pair(body: int, exit: int, count: int) -> bool {
    0 < body && body % 2 == 1 && exit == body + 1 && exit < count
}

/// The shape of every compiled function: an entry block followed by one pair
/// of blocks per loop, every branch going to the two blocks of one loop.
pub open spec fn well_formed(f: FunctionView) -> bool {
    &&& f.blocks.len() % 2 == 1
    &&& forall|i: int| 0 <= i < f.blocks.len() ==> (#[trigger] f.blocks[i]).kind == kind_at(i)
    &&& forall|i: int|
        0 <= i < f.blocks.len() ==> match (#[trigger] f.blocks[i]).terminator {
            Terminator::Branch { exit, body } => is_loop_pair(
                body as int,
                exit as int,
                f.blocks.len() as int,
            ),
            Terminator::Return => true,
        }
}

/// The single function that a compilation produces. It is made by the code
/// generator and only read afterwards.
pub struct CompiledFunction {
    blocks: Vec<Block>,
    mode: OutputMode,
}

impl View for CompiledFunction {
    type V = FunctionView;

    closed spec fn view(&self) -> FunctionView {
        FunctionView { blocks: block_views(self.blocks@), mode: self.mode }
    }
}

impl CompiledFunction {
    #[verifier::type_invariant]
    spec fn shaped(&self) -> bool {
        well_formed(self@)
    }

    /// Seals a list of blocks as a compiled function.
    pub(crate) fn new(blocks: Vec<Block>, mode: OutputMode) -> (f: CompiledFunction)
        requires
            well_formed(FunctionView { blocks: block_views(blocks@), mode }),
        ensures
            f@ == (FunctionView { blocks: block_views(blocks@), mode }),
    {
        CompiledFunction { blocks, mode }
    }

    /// The blocks, entry first.
    pub fn blocks(&self) -> (blocks: &Vec<Block>)
        ensures
            block_views(blocks@) == self@.blocks,
            well_formed(self@),
    {
        proof {
            use_type_invariant(self);
        }
        &self.blocks
    }

    /// The mode the function was compiled for.
    pub fn mode(&self) -> (mode: OutputMode)
        ensures
            mode == self@.mode,
    {
        self.mode
    }
}

} // verus!
