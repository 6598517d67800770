use vstd::prelude::*;

verus! {

/// One instruction of the folded stream, in source order.
///
/// The four counted variants stand for a maximal run of one repeated symbol.
/// A cell count is kept modulo 256, the width of a cell; a shift count is the
/// raw run length and is reduced only when the pointer is updated.
#[derive(Clone, Copy, Debug, PartialEq, Eq, Structural)]
pub enum Instruction {
    /// A run of `+`.
    AddCell(u8),
    /// A run of `-`.
    SubCell(u8),
    /// A run of `>`.
    ShiftRight(u64),
    /// A run of `<`.
    ShiftLeft(u64),
    /// `[`
    LoopStart,
    /// `]`
    LoopEnd,
    /// `.`
    Output,
    /// `,`
    Input,
    /// Any character that is not one of the eight symbols.
    Skip,
}

/// The symbols whose runs are folded into one counted instruction.
pub open spec fn is_run_symbol(c: char) -> bool {
    c == '+' || c == '-' || c == '<' || c == '>'
}

/// The eight symbols of the language.
pub open spec fn is_symbol(c: char) -> bool {
    is_run_symbol(c) || c == '[' || c == ']' || c == ',' || c == '.'
}

/// The instruction that a run of `n` copies of the run symbol `c` folds into.
pub open spec fn folded(c: char, n: nat) -> Instruction
    recommends
        is_run_symbol(c),
{
    if c == '+' {
        Instruction::AddCell((n % 256) as u8)
    } else if c == '-' {
        Instruction::SubCell((n % 256) as u8)
    } else if c == '>' {
        Instruction::ShiftRight(n as u64)
    } else {
        Instruction::ShiftLeft(n as u64)
    }
}

/// The instruction that a single character outside the run symbols becomes.
pub open spec fn unit(c: char) -> Instruction
    recommends
        !is_run_symbol(c),
{
    if c == '[' {
        Instruction::LoopStart
    } else if c == ']' {
        Instruction::LoopEnd
    } else if c == '.' {
        Instruction::Output
    } else if c == ',' {
        Instruction::Input
    } else {
        Instruction::Skip
    }
}

/// Whether `c` is one of the four symbols that fold into runs.
pub fn run_symbol(c: char) -> (b: bool)
    ensures
        b == is_run_symbol(c),
{
    c == '+' || c == '-' || c == '<' || c == '>'
}

/// Whether `c` is one of the eight symbols of the language.
pub fn symbol(c: char) -> (b: bool)
    ensures
        b == is_symbol(c),
{
    run_symbol(c) || c == '[' || c == ']' || c == ',' || c == '.'
}

/// The instruction that stands for the character `c` followed by `n - 1`
/// copies of itself. Only a run symbol makes use of `n`.
pub open spec fn instruction_for(c: char, n: nat) -> Instruction {
    if is_run_symbol(c) {
        folded(c, n)
    } else {
        unit(c)
    }
}

impl Instruction {
    /// The instruction for a run of `count` copies of `c`. A character that
    /// is not a run symbol never folds: it gives its own instruction,
    /// whatever the count.
    pub fn fold(c: char, count: u64) -> (i: Instruction)
        ensures
            i == instruction_for(c, count as nat),
    {
        if c == '+' {
            Instruction::AddCell((count % 256) as u8)
        } else if c == '-' {
            Instruction::SubCell((count % 256) as u8)
        } else if c == '>' {
            Instruction::ShiftRight(count)
        } else if c == '<' {
            Instruction::ShiftLeft(count)
        } else {
            Instruction::single(c)
        }
    }

    /// The instruction for one character on its own.
    pub fn single(c: char) -> (i: Instruction)
        ensures
            i == instruction_for(c, 1),
    {
        if c == '[' {
            Instruction::LoopStart
        } else if c == ']' {
            Instruction::LoopEnd
        } else if c == '.' {
            Instruction::Output
        } else if c == ',' {
            Instruction::Input
        } else if c == '+' {
            Instruction::AddCell(1)
        } else if c == '-' {
            Instruction::SubCell(1)
        } else if c == '>' {
            Instruction::ShiftRight(1)
        } else if c == '<' {
            Instruction::ShiftLeft(1)
        } else {
            Instruction::Skip
        }
    }
}

} // verus!
