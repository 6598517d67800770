use vstd::prelude::*;

verus! {

/// Every way a compilation can fail. All of them are fatal: nothing is
/// produced when one is returned.
#[derive(Clone, Copy, Debug, PartialEq, Eq, Structural)]
pub enum CompileError {
    /// A loop-close instruction was met while no loop was open.
    UnmatchedCloseBracket,
    /// The instruction stream ended while loops were still open.
    UnmatchedOpenBracket,
    /// The code-generation backend refused to build part of the function.
    BackendAllocationFailure,
    /// The backend could not serialise the finished function.
    BackendWriteFailure,
}

impl CompileError {
    /// A one-line diagnostic for the error.
    pub fn message(&self) -> (text: &'static str)
        ensures
            text@ == Self::message_of(*self)@,
    {
        match self {
            CompileError::UnmatchedCloseBracket => "unmatched close bracket",
            CompileError::UnmatchedOpenBracket => "unmatched open bracket",
            CompileError::BackendAllocationFailure => "the code-generation backend failed",
            CompileError::BackendWriteFailure => "the object code could not be written",
        }
    }

    /// The diagnostic text that belongs to each error.
    pub open spec fn message_of(e: CompileError) -> &'static str {
        match e {
            CompileError::UnmatchedCloseBracket => "unmatched close bracket",
            CompileError::UnmatchedOpenBracket => "unmatched open bracket",
            CompileError::BackendAllocationFailure => "the code-generation backend failed",
            CompileError::BackendWriteFailure => "the object code could not be written",
        }
    }
}

} // verus!
