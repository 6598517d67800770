use vstd::prelude::*;
use crate::function::{
    block_views, well_formed, Block, CompiledFunction, FunctionView, Op, OutputMode, Terminator,
};
use crate::tape::{blank, cell_plus, current_cell, with_cell, with_shift, Tape, TapeView};

verus! {

/// What the host's input routine returns once its source is exhausted.
pub const END_OF_INPUT: i32 = -1;

/// A running program between two operations: its tape, how many bytes of
/// input it has taken, and the values it has passed to the output routine.
pub struct MachineView {
    pub tape: TapeView,
    pub consumed: nat,
    pub output: Seq<i32>,
}

/// A program that has not run yet.
pub open spec fn fresh() -> MachineView {
    MachineView { tape: blank(), consumed: 0, output: Seq::empty() }
}

/// What the input routine returns when `consumed` bytes of `input` have been
/// taken: the next byte, widened, or the end-of-input value.
pub open spec fn host_read(input: Seq<u8>, consumed: nat) -> i32 {
    if consumed < input.len() {
        input[consumed as int] as i32
    } else {
        END_OF_INPUT
    }
}

/// The low byte of a value of the input routine.
pub open spec fn narrowed(value: i32) -> u8 {
    (value as int % 256) as u8
}

/// A cell's value in the width of the output routine.
pub open spec fn widened(cell: u8) -> i32 {
    cell as i32
}

/// The machine after one operation.
pub open spec fn after_op(m: MachineView, op: Op, input: Seq<u8>) -> MachineView {
    match op {
        Op::AddCell(n) => MachineView {
            tape: with_cell(m.tape, cell_plus(current_cell(m.tape), n as int)),
            consumed: m.consumed,
            output: m.output,
        },
        Op::SubCell(n) => MachineView {
            tape: with_cell(m.tape, cell_plus(current_cell(m.tape), -(n as int))),
            consumed: m.consumed,
            output: m.output,
        },
        Op::ShiftRight(n) => MachineView {
            tape: with_shift(m.tape, n as int),
            consumed: m.consumed,
            output: m.output,
        },
        Op::ShiftLeft(n) => MachineView {
            tape: with_shift(m.tape, -(n as int)),
            consumed: m.consumed,
            output: m.output,
        },
        Op::Output => MachineView {
            tape: m.tape,
            consumed: m.consumed,
            output: m.output.push(widened(current_cell(m.tape))),
        },
        Op::Input => MachineView {
            tape: with_cell(m.tape, narrowed(host_read(input, m.consumed))),
            consumed: if m.consumed < input.len() {
                m.consumed + 1
            } else {
                m.consumed
            },
            output: m.output,
        },
    }
}

/// The machine after a block's operations, first to last.
pub open spec fn after_ops(m: MachineView, ops: Seq<Op>, input: Seq<u8>) -> MachineView
    decreases ops.len(),
{
    if ops.len() == 0 {
        m
    } else {
        after_op(after_ops(m, ops.drop_last(), input), ops.last(), input)
    }
}

/// How a run ended and what it left behind.
pub struct RunView {
    pub machine: MachineView,
    /// Whether the function returned. If not, the fuel ran out first.
    pub finished: bool,
    /// Whether the function gave up its tape before it returned.
    pub released: bool,
}

/// The run that starts at `block` with `fuel` blocks still allowed. Each
/// block does its operations and then returns or tests the current cell:
/// zero leaves the loop, anything else enters its body.
pub open spec fn ran(
    f: FunctionView,
    m: MachineView,
    block: int,
    input: Seq<u8>,
    fuel: nat,
) -> RunView
    decreases fuel,
{
    if fuel == 0 {
        RunView { machine: m, finished: false, released: false }
    } else {
        let after = after_ops(m, f.blocks[block].ops, input);
        match f.blocks[block].terminator {
            Terminator::Return => RunView {
                machine: after,
                finished: true,
                released: f.mode == OutputMode::Emit,
            },
            Terminator::Branch { exit, body } => ran(
                f,
                after,
                if current_cell(after.tape) == 0 {
                    exit as int
                } else {
                    body as int
                },
                input,
                (fuel - 1) as nat,
            ),
        }
    }
}

/// The result of running a compiled function on the reference machine.
pub struct Execution {
    /// The tape as the program left it.
    pub tape: Tape,
    /// The values passed to the output routine, in order.
    pub output: Vec<i32>,
    /// How many bytes of input were taken.
    pub consumed: usize,
    /// Whether the function returned before the fuel ran out.
    pub finished: bool,
    /// Whether the function freed its tape before it returned, as it does
    /// when compiled for an object file.
    pub released: bool,
}

impl View for Execution {
    type V = RunView;

    open spec fn view(&self) -> RunView {
        RunView {
            machine: MachineView {
                tape: self.tape@,
                consumed: self.consumed as nat,
                output: self.output@,
            },
            finished: self.finished,
            released: self.released,
        }
    }
}

/// The byte that the input routine's value `value` is stored as.
pub fn narrow(value: i32) -> (byte: u8)
    ensures
        byte == narrowed(value),
{
    let low: i32 = value % 256;
    if low < 0 {
        (low + 256) as u8
    } else {
        low as u8
    }
}

/// Runs a compiled function from its entry on a blank tape, with `input` as
/// the bytes the host's input routine will hand out, for at most `fuel`
/// blocks.
pub fn run(function: &CompiledFunction, input: &Vec<u8>, fuel: u64) -> (e: Execution)
    ensures
        e@ == ran(function@, fresh(), 0, input@, fuel as nat),
{
    let blocks = function.blocks();
    let mut tape = Tape::new();
    let mut output: Vec<i32> = Vec::new();
    let mut consumed: usize = 0;
    let mut block: usize = 0;
    let mut left: u64 = fuel;
    while left > 0
        invariant
            block_views(blocks@) == function@.blocks,
            well_formed(function@),
            block < blocks.len(),
            consumed <= input.len(),
            ran(function@, fresh(), 0, input@, fuel as nat) == ran(
                function@,
                MachineView { tape: tape@, consumed: consumed as nat, output: output@ },
                block as int,
                input@,
                left as nat,
            ),
        decreases left,
    {
        let here: &Block = &blocks[block];
        let ghost at_entry = MachineView {
            tape: tape@,
            consumed: consumed as nat,
            output: output@,
        };
        assert(here@ == function@.blocks[block as int]);
        let mut i: usize = 0;
        while i < here.ops.len()
            invariant
                i <= here.ops.len(),
                consumed <= input.len(),
                (MachineView { tape: tape@, consumed: consumed as nat, output: output@ })
                    == after_ops(at_entry, here.ops@.take(i as int), input@),
            decreases here.ops.len() - i,
        {
            proof {
                assert(here.ops@.take(i + 1).drop_last() == here.ops@.take(i as int));
            }
            match here.ops[i] {
                Op::AddCell(n) => {
                    tape = tape.add(n);
                },
                Op::SubCell(n) => {
                    tape = tape.sub(n);
                },
                Op::ShiftRight(n) => {
                    tape = tape.right(n);
                },
                Op::ShiftLeft(n) => {
                    tape = tape.left(n);
                },
                Op::Output => {
                    output.push(tape.current() as i32);
                },
                Op::Input => {
                    if consumed < input.len() {
                        tape = tape.store(narrow(input[consumed] as i32));
                        consumed = consumed + 1;
                    } else {
                        tape = tape.store(narrow(END_OF_INPUT));
                    }
                },
            }
            i = i + 1;
        }
        proof {
            assert(here.ops@.take(i as int) == here.ops@);
        }
        match here.terminator {
            Terminator::Return => {
                return Execution {
                    tape,
                    output,
                    consumed,
                    finished: true,
                    released: matches!(function.mode(), OutputMode::Emit),
                };
            },
            Terminator::Branch { exit, body } => {
                block = if tape.current() == 0 {
                    exit
                } else {
                    body
                };
                left = left - 1;
            },
        }
    }
    Execution { tape, output, consumed, finished: false, released: false }
}

} // verus!
