//! A compiler for an eight-symbol tape language.
//!
//! Program text is scanned into a folded instruction stream, lowered into
//! the basic blocks of one function, and built through LLVM, either to run
//! in this process or to be written out as a relocatable object.
//!
//! - `instruction`, `scanner`: the instruction stream and how text folds
//!   into it.
//! - `tape`: the ring of byte cells and the arithmetic of cells and pointer.
//! - `loop_stack`: the matching of loop-opens and loop-closes.
//! - `function`, `codegen`: the compiled function and the pass that lowers
//!   a stream into it.
//! - `machine`: a reference machine that runs a compiled function.
//! - `meaning`: what a stream means on its own, and the proof that lowering
//!   keeps it.
//! - `outputs`: the proof that what a program writes first does not depend
//!   on what follows in its text.
//! - `folding`: the proof that folding runs, and dropping characters that
//!   are no symbols, keep the behaviour of the compiled function.
//! - `listing`, `effect`: the requests that are made of the backend's
//!   builder for each operation and terminator, and the proof that they do
//!   what the operation means.
//! - `backend`, `llvm`: the compiler that builds the function in an LLVM
//!   module, and the calls into LLVM that it rests on.

pub mod error;
pub mod instruction;
pub mod scanner;
pub mod tape;
pub mod loop_stack;
pub mod function;
pub mod codegen;
pub mod machine;
pub mod meaning;
pub mod outputs;
pub mod folding;
pub mod listing;
pub mod effect;
pub mod llvm;
pub mod backend;

pub use backend::{compile, CodeGen};
pub use error::CompileError;
pub use function::{Block, BlockKind, CompiledFunction, Op, OutputMode, Terminator};
pub use instruction::Instruction;
pub use loop_stack::{LoopFrame, LoopStack};
