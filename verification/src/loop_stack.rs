use vstd::prelude::*;
use crate::error::CompileError;

verus! {

/// The two blocks of one open loop: where its body starts and where control
/// goes once the loop is left.
#[derive(Clone, Copy, Debug, PartialEq, Eq, Structural)]
pub struct LoopFrame {
    pub body: usize,
    pub exit: usize,
}

/// The frames of the loops that are open, innermost last.
pub struct LoopStack {
    frames: Vec<LoopFrame>,
}

impl View for LoopStack {
    type V = Seq<LoopFrame>;

    closed spec fn view(&self) -> Seq<LoopFrame> {
        self.frames@
    }
}

impl LoopStack {
    /// A stack with no open loop.
    pub fn new() -> (s: LoopStack)
        ensures
            s@ == Seq::<LoopFrame>::empty(),
    {
        LoopStack { frames: Vec::new() }
    }

    /// How many loops are open.
    pub fn depth(&self) -> (n: usize)
        ensures
            n == self@.len(),
    {
        self.frames.len()
    }

    /// Opens a loop.
    pub fn push(&mut self, frame: LoopFrame)
        ensures
            final(self)@ == old(self)@.push(frame),
    {
        self.frames.push(frame);
    }

    /// Closes the innermost loop and hands out its frame. With no loop open
    /// the stack is left as it was and the close is reported as unmatched.
    pub fn pop(&mut self) -> (r: Result<LoopFrame, CompileError>)
        ensures
            old(self)@.len() > 0 ==> r == Ok::<LoopFrame, CompileError>(old(self)@.last())
                && final(self)@ == old(self)@.drop_last(),
            old(self)@.len() == 0 ==> r == Err::<LoopFrame, CompileError>(
                CompileError::UnmatchedCloseBracket,
            ) && final(self)@ == old(self)@,
    {
        match self.frames.pop() {
            Some(frame) => Ok(frame),
            None => Err(CompileError::UnmatchedCloseBracket),
        }
    }

    /// The check at the end of the stream: every loop must have been closed.
    pub fn finish(&self) -> (r: Result<(), CompileError>)
        ensures
            self@.len() == 0 ==> r == Ok::<(), CompileError>(()),
            self@.len() > 0 ==> r == Err::<(), CompileError>(CompileError::UnmatchedOpenBracket),
    {
        if self.frames.len() == 0 {
            Ok(())
        } else {
            Err(CompileError::UnmatchedOpenBracket)
        }
    }
}

} // verus!
