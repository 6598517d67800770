use bf_compiler::listing::{
    block_name, declaration_listing, entry_listing, routine_name, value_name, Request, Returns,
    Routine, Signature,
};
use bf_compiler::tape::{shift_left, shift_right, Tape};
use bf_compiler::{Block, BlockKind, CodeGen, Op, OutputMode, Terminator};

fn block(ops: Vec<Op>, terminator: Terminator) -> Block {
    Block { kind: BlockKind::Entry, ops, terminator }
}

fn cell_read(at: usize) -> Vec<Request> {
    vec![
        Request::LoadOffset,
        Request::TapeBase,
        Request::Add { lhs: at + 1, rhs: at },
        Request::Cell { address: at + 2 },
        Request::Load { cell: at + 3 },
    ]
}

#[test]
fn the_entry_allocates_zeroes_and_starts_at_cell_zero() {
    assert_eq!(
        entry_listing(),
        vec![
            Request::Word(65535),
            Request::Allocate { count: 0 },
            Request::Byte(0),
            Request::ZeroFill { value: 2, count: 0 },
            Request::Slot,
            Request::Wide(0),
            Request::StoreOffset { value: 5 },
        ]
    );
}

#[test]
fn the_entry_makes_the_machine_fresh() {
    let mut code = Code::new(&[]);
    code.cells = vec![0xaa; 3];
    code.offset = 77;
    code.perform(&entry_listing());
    assert_eq!(code.cells, vec![0u8; 65535]);
    assert_eq!(code.offset, 0);
    assert_eq!(code.output, vec![]);
    assert_eq!(code.consumed, 0);
}

#[test]
fn the_module_declares_the_host_routines_and_main() {
    let output = Signature { routine: Routine::Output, takes_word: true, returns: Returns::Word };
    let input = Signature { routine: Routine::Input, takes_word: false, returns: Returns::Word };
    assert_eq!(
        declaration_listing(OutputMode::Execute),
        vec![
            output,
            input,
            Signature { routine: Routine::Main, takes_word: false, returns: Returns::Tape },
        ]
    );
    assert_eq!(
        declaration_listing(OutputMode::Emit),
        vec![
            output,
            input,
            Signature { routine: Routine::Main, takes_word: false, returns: Returns::Word },
        ]
    );
    assert_eq!(routine_name(Routine::Output), "putchar");
    assert_eq!(routine_name(Routine::Input), "getchar");
    assert_eq!(routine_name(Routine::Main), "main");
}

#[test]
fn an_empty_block_only_returns() {
    let b = block(vec![], Terminator::Return);
    assert_eq!(CodeGen::block_listing(&b, OutputMode::Execute), vec![Request::ReturnTape]);
    assert_eq!(
        CodeGen::block_listing(&b, OutputMode::Emit),
        vec![Request::Free, Request::Word(0), Request::ReturnStatus { value: 1 }]
    );
}

#[test]
fn a_cell_edit_loads_edits_and_stores() {
    let b = block(vec![Op::AddCell(3)], Terminator::Return);
    let mut expected = cell_read(0);
    expected.extend([
        Request::Byte(3),
        Request::Add { lhs: 4, rhs: 5 },
        Request::Store { cell: 3, value: 6 },
        Request::ReturnTape,
    ]);
    assert_eq!(CodeGen::block_listing(&b, OutputMode::Execute), expected);

    let b = block(vec![Op::SubCell(200)], Terminator::Return);
    let mut expected = cell_read(0);
    expected.extend([
        Request::Byte(200),
        Request::Sub { lhs: 4, rhs: 5 },
        Request::Store { cell: 3, value: 6 },
        Request::ReturnTape,
    ]);
    assert_eq!(CodeGen::block_listing(&b, OutputMode::Execute), expected);
}

#[test]
fn a_shift_to_the_right_adds_and_reduces_once() {
    let b = block(vec![Op::ShiftRight(65536)], Terminator::Return);
    assert_eq!(
        CodeGen::block_listing(&b, OutputMode::Execute),
        vec![
            Request::Wide(65535),
            Request::Wide(1),
            Request::LoadOffset,
            Request::Add { lhs: 2, rhs: 1 },
            Request::Rem { lhs: 3, rhs: 0 },
            Request::StoreOffset { value: 4 },
            Request::ReturnTape,
        ]
    );
}

#[test]
fn a_shift_to_the_left_lifts_before_it_subtracts() {
    let b = block(vec![Op::ShiftLeft(65537)], Terminator::Return);
    assert_eq!(
        CodeGen::block_listing(&b, OutputMode::Execute),
        vec![
            Request::Wide(65535),
            Request::Wide(2),
            Request::LoadOffset,
            Request::Add { lhs: 2, rhs: 0 },
            Request::Sub { lhs: 3, rhs: 1 },
            Request::Rem { lhs: 4, rhs: 0 },
            Request::StoreOffset { value: 5 },
            Request::ReturnTape,
        ]
    );
}

#[test]
fn output_widens_and_input_narrows() {
    let b = block(vec![Op::Output], Terminator::Return);
    let mut expected = cell_read(0);
    expected.extend([Request::Widen { value: 4 }, Request::Put { value: 5 }, Request::ReturnTape]);
    assert_eq!(CodeGen::block_listing(&b, OutputMode::Execute), expected);

    let b = block(vec![Op::Input], Terminator::Return);
    assert_eq!(
        CodeGen::block_listing(&b, OutputMode::Execute),
        vec![
            Request::Get,
            Request::Narrow { value: 0 },
            Request::LoadOffset,
            Request::TapeBase,
            Request::Add { lhs: 3, rhs: 2 },
            Request::Cell { address: 4 },
            Request::Store { cell: 5, value: 1 },
            Request::ReturnTape,
        ]
    );
}

#[test]
fn a_branch_reads_the_cell_again_and_tests_it_for_zero() {
    let b = block(vec![], Terminator::Branch { exit: 2, body: 1 });
    let mut expected = cell_read(0);
    expected.extend([
        Request::Byte(0),
        Request::Equal { lhs: 4, rhs: 5 },
        Request::Branch { test: 6, exit: 2, body: 1 },
    ]);
    assert_eq!(CodeGen::block_listing(&b, OutputMode::Execute), expected);
}

#[test]
fn requests_are_numbered_through_the_block() {
    let b = block(vec![Op::AddCell(1), Op::Output], Terminator::Branch { exit: 4, body: 3 });
    let mut expected = cell_read(0);
    expected.extend([
        Request::Byte(1),
        Request::Add { lhs: 4, rhs: 5 },
        Request::Store { cell: 3, value: 6 },
    ]);
    expected.extend(cell_read(8));
    expected.extend([Request::Widen { value: 12 }, Request::Put { value: 13 }]);
    expected.extend(cell_read(15));
    expected.extend([
        Request::Byte(0),
        Request::Equal { lhs: 19, rhs: 20 },
        Request::Branch { test: 21, exit: 4, body: 3 },
    ]);
    assert_eq!(CodeGen::block_listing(&b, OutputMode::Emit), expected);
}

/// The compiled code as far as these tests need it: a tape of cells at an
/// address, the pointer offset in its slot, and the host's two routines.
struct Code {
    bits: u32,
    base: u64,
    cells: Vec<u8>,
    offset: u64,
    input: Vec<u8>,
    consumed: usize,
    output: Vec<i32>,
}

impl Code {
    fn new(input: &[u8]) -> Code {
        Code::of_width(64, 0x7fff_0000_0000, input)
    }

    /// Code for a machine whose pointers have `bits` bits, with the tape at
    /// `base`.
    fn of_width(bits: u32, base: u64, input: &[u8]) -> Code {
        Code {
            bits,
            base,
            cells: vec![0; 65535],
            offset: 0,
            input: input.to_vec(),
            consumed: 0,
            output: vec![],
        }
    }

    /// Does the requests one by one, each as the instruction it stands for,
    /// and hands back the values built.
    fn perform(&mut self, listing: &[Request]) -> Vec<(u32, u64)> {
        let mask = |bits: u32, v: u128| -> u64 { (v % (1u128 << bits)) as u64 };
        let mut values: Vec<(u32, u64)> = vec![];
        for request in listing {
            let built = match *request {
                Request::Byte(n) => (8, n as u64),
                Request::Word(n) => (32, n as u64),
                Request::Wide(n) => (self.bits, n),
                Request::LoadOffset => (self.bits, self.offset),
                Request::StoreOffset { value } => {
                    self.offset = values[value].1;
                    (0, 0)
                }
                Request::TapeBase => (self.bits, self.base),
                Request::ZeroFill { value, count } => {
                    self.cells = vec![values[value].1 as u8; values[count].1 as usize];
                    (0, 0)
                }
                Request::Add { lhs, rhs } => {
                    let bits = values[lhs].0;
                    (bits, mask(bits, values[lhs].1 as u128 + values[rhs].1 as u128))
                }
                Request::Sub { lhs, rhs } => {
                    let bits = values[lhs].0;
                    (bits, mask(bits, (1u128 << bits) + values[lhs].1 as u128 - values[rhs].1 as u128))
                }
                Request::Rem { lhs, rhs } => (values[lhs].0, values[lhs].1 % values[rhs].1),
                Request::Cell { address } => (self.bits, values[address].1),
                Request::Load { cell } => (8, self.cells[(values[cell].1 - self.base) as usize] as u64),
                Request::Store { cell, value } => {
                    self.cells[(values[cell].1 - self.base) as usize] = values[value].1 as u8;
                    (0, 0)
                }
                Request::Widen { value } => (32, values[value].1),
                Request::Narrow { value } => (8, values[value].1 % 256),
                Request::Equal { lhs, rhs } => (1, (values[lhs].1 == values[rhs].1) as u64),
                Request::Get => {
                    if self.consumed < self.input.len() {
                        self.consumed += 1;
                        (32, self.input[self.consumed - 1] as u64)
                    } else {
                        (32, 0xffff_ffff)
                    }
                }
                Request::Put { value } => {
                    self.output.push(values[value].1 as i32);
                    (0, 0)
                }
                _ => (0, 0),
            };
            values.push(built);
        }
        values
    }
}

fn listing_of(ops: Vec<Op>, terminator: Terminator) -> Vec<Request> {
    CodeGen::block_listing(&block(ops, terminator), OutputMode::Execute)
}

#[test]
fn the_requests_of_an_operation_do_the_operation() {
    let ops = vec![
        Op::AddCell(200),
        Op::AddCell(100),
        Op::ShiftRight(3),
        Op::SubCell(1),
        Op::ShiftLeft(5),
        Op::Input,
        Op::Output,
        Op::ShiftRight(200000),
        Op::Input,
        Op::ShiftLeft(u64::MAX),
        Op::Output,
        Op::ShiftLeft(1),
        Op::Input,
        Op::Output,
    ];
    let mut code = Code::new(&[7, 9]);
    code.perform(&listing_of(ops, Terminator::Return));
    let tape = Tape::new()
        .add(200)
        .add(100)
        .right(3)
        .sub(1)
        .left(5)
        .store(7)
        .right(200000)
        .store(9)
        .left(u64::MAX)
        .left(1)
        .store(255);
    assert_eq!(code.offset as usize, tape.pointer());
    assert_eq!(code.output, vec![7, 9, 255]);
    assert_eq!(code.consumed, 2);
    for at in [0usize, 1, 2, 3, 3392, 3393, 3394, 65532, 65533, 65534] {
        assert_eq!(Some(code.cells[at]), tape.cell(at), "cell {}", at);
    }
}

#[test]
fn the_requests_of_a_shift_stay_within_64_bits() {
    for start in [0u64, 1, 65534] {
        for n in [0u64, 1, 65534, 65535, 65536, u64::MAX - 1, u64::MAX] {
            for right in [true, false] {
                let op = if right { Op::ShiftRight(n) } else { Op::ShiftLeft(n) };
                let mut code = Code::new(&[]);
                code.offset = start;
                let values = code.perform(&listing_of(vec![op], Terminator::Return));
                let expected = if right {
                    shift_right(start, n)
                } else {
                    shift_left(start, n)
                };
                assert_eq!(code.offset, expected, "{} {} {}", start, n, right);
                assert!(values.iter().all(|v| v.0 != 64 || v.1 < 0x7fff_0000_0000 + 65535));
            }
        }
    }
}

#[test]
fn the_requests_work_with_pointers_of_32_bits() {
    let base = 0xffff_0000u64;
    for start in [0u64, 1, 65534] {
        for n in [0u64, 1, 65535, 65536, u64::MAX] {
            for right in [true, false] {
                let op = if right { Op::ShiftRight(n) } else { Op::ShiftLeft(n) };
                let mut code = Code::of_width(32, base, &[]);
                code.offset = start;
                code.perform(&listing_of(vec![op, Op::AddCell(9), Op::Output], Terminator::Return));
                let expected = if right { shift_right(start, n) } else { shift_left(start, n) };
                assert_eq!(code.offset, expected, "{} {} {}", start, n, right);
                assert_eq!(code.cells[expected as usize], 9);
                assert_eq!(code.output, vec![9]);
            }
        }
    }
}

#[test]
fn the_requests_of_a_branch_test_the_current_cell() {
    for cell in [0u8, 1, 255] {
        let mut code = Code::new(&[]);
        code.offset = 12;
        code.cells[12] = cell;
        let listing = listing_of(vec![], Terminator::Branch { exit: 2, body: 1 });
        let values = code.perform(&listing);
        assert_eq!(listing[7], Request::Branch { test: 6, exit: 2, body: 1 });
        assert_eq!(values[6], (1, (cell == 0) as u64));
        assert_eq!(code.cells[12], cell);
        assert_eq!(code.offset, 12);
    }
}

#[test]
fn blocks_and_values_are_named_by_kind() {
    assert_eq!(block_name(BlockKind::Entry), "entry");
    assert_eq!(block_name(BlockKind::LoopBody), "start_of_loop");
    assert_eq!(block_name(BlockKind::LoopExit), "end_of_loop");
    assert_eq!(value_name(Request::Allocate { count: 0 }), "tape");
    assert_eq!(value_name(Request::Slot), "offset");
    assert_eq!(value_name(Request::LoadOffset), "position");
    assert_eq!(value_name(Request::TapeBase), "base");
    assert_eq!(value_name(Request::Add { lhs: 0, rhs: 1 }), "sum");
    assert_eq!(value_name(Request::Sub { lhs: 0, rhs: 1 }), "difference");
    assert_eq!(value_name(Request::Rem { lhs: 0, rhs: 1 }), "reduced");
    assert_eq!(value_name(Request::Cell { address: 0 }), "cell");
    assert_eq!(value_name(Request::Load { cell: 0 }), "value");
    assert_eq!(value_name(Request::Widen { value: 0 }), "widened");
    assert_eq!(value_name(Request::Narrow { value: 0 }), "narrowed");
    assert_eq!(value_name(Request::Equal { lhs: 0, rhs: 1 }), "is_zero");
    assert_eq!(value_name(Request::Get), "got");
    assert_eq!(value_name(Request::Put { value: 0 }), "put");
    assert_eq!(value_name(Request::Byte(1)), "");
    assert_eq!(value_name(Request::Store { cell: 0, value: 1 }), "");
    assert_eq!(value_name(Request::ReturnTape), "");
}
