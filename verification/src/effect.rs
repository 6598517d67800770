use vstd::prelude::*;
use vstd::arithmetic::div_mod::{
    lemma_add_mod_noop_right, lemma_mod_mod, lemma_mod_multiples_vanish, lemma_small_mod,
    lemma_sub_mod_noop_right,
};
use crate::function::Op;
use crate::listing::{
    branch_requests, cell_address_requests, cell_edit_requests, cell_read_requests,
    entry_requests, input_requests, numbered, op_requests, ops_requests, output_requests,
    shift_requests, Request,
};
use crate::machine::{
    after_op, after_ops, fresh, host_read, narrowed, widened, MachineView,
};
use crate::meaning::tape_in_bounds;
use crate::tape::{
    blank, cell_plus, current_cell, ring_offset, with_cell, TapeView, TAPE_SIZE,
};

verus! {

/// A value in the compiled code, read without sign: a number below the
/// modulus of its width, which is two to the number of its bits.
pub struct Value {
    pub modulus: int,
    pub number: int,
}

/// The modulus of a byte.
pub open spec fn byte() -> int {
    0x100
}

/// The modulus of a 32-bit value.
pub open spec fn word() -> int {
    0x1_0000_0000
}

/// Whether a pointer of modulus `width` is wide enough for the arithmetic
/// of the pointer offset: twice the tape's size must fit.
pub open spec fn wide_enough(width: int) -> bool {
    2 * TAPE_SIZE <= width
}

/// The compiled code in the middle of a block: the values that the
/// requests so far have built, and the machine as they have left it.
pub struct Progress {
    pub values: Seq<Value>,
    pub machine: MachineView,
}

/// The value that a request builds. `base` is the address at which the tape
/// begins and `width` the modulus of a pointer. A request that builds
/// nothing gives a value of no bits.
pub open spec fn value_built(p: Progress, request: Request, base: int, width: int, input: Seq<u8>) -> Value {
    match request {
        Request::Byte(n) => Value { modulus: byte(), number: n as int },
        Request::Word(n) => Value { modulus: word(), number: n as int },
        Request::Wide(n) => Value { modulus: width, number: n as int },
        Request::LoadOffset => Value { modulus: width, number: p.machine.tape.pointer },
        Request::TapeBase => Value { modulus: width, number: base },
        Request::Add { lhs, rhs } => Value {
            modulus: p.values[lhs as int].modulus,
            number: (p.values[lhs as int].number + p.values[rhs as int].number) % p.values[lhs as int].modulus,
        },
        Request::Sub { lhs, rhs } => Value {
            modulus: p.values[lhs as int].modulus,
            number: (p.values[lhs as int].number - p.values[rhs as int].number) % p.values[lhs as int].modulus,
        },
        Request::Rem { lhs, rhs } => Value {
            modulus: p.values[lhs as int].modulus,
            number: p.values[lhs as int].number % p.values[rhs as int].number,
        },
        Request::Cell { address } => Value { modulus: width, number: p.values[address as int].number },
        Request::Load { cell } => Value {
            modulus: byte(),
            number: p.machine.tape.cells[p.values[cell as int].number - base] as int,
        },
        Request::Widen { value } => Value { modulus: word(), number: p.values[value as int].number },
        Request::Narrow { value } => Value {
            modulus: byte(),
            number: p.values[value as int].number % 0x100,
        },
        Request::Equal { lhs, rhs } => Value {
            modulus: 2,
            number: if p.values[lhs as int].number == p.values[rhs as int].number {
                1
            } else {
                0
            },
        },
        Request::Get => Value {
            modulus: word(),
            number: (host_read(input, p.machine.consumed) as int) % 0x1_0000_0000,
        },
        _ => Value { modulus: 1, number: 0 },
    }
}

/// The machine after a request. Only a store, a fill of the tape, a call
/// of a host routine and a store of the offset change it. What an
/// allocation holds is not known until it is filled.
pub open spec fn machine_left(
    p: Progress,
    request: Request,
    base: int,
    width: int,
    input: Seq<u8>,
) -> MachineView {
    let m = p.machine;
    match request {
        Request::StoreOffset { value } => MachineView {
            tape: TapeView { cells: m.tape.cells, pointer: p.values[value as int].number },
            consumed: m.consumed,
            output: m.output,
        },
        Request::Store { cell, value } => MachineView {
            tape: TapeView {
                cells: m.tape.cells.update(
                    p.values[cell as int].number - base,
                    p.values[value as int].number as u8,
                ),
                pointer: m.tape.pointer,
            },
            consumed: m.consumed,
            output: m.output,
        },
        Request::ZeroFill { value, count } => MachineView {
            tape: TapeView {
                cells: Seq::new(
                    p.values[count as int].number as nat,
                    |i: int| p.values[value as int].number as u8,
                ),
                pointer: m.tape.pointer,
            },
            consumed: m.consumed,
            output: m.output,
        },
        Request::Get => MachineView {
            tape: m.tape,
            consumed: if m.consumed < input.len() {
                m.consumed + 1
            } else {
                m.consumed
            },
            output: m.output,
        },
        Request::Put { value } => MachineView {
            tape: m.tape,
            consumed: m.consumed,
            output: m.output.push(p.values[value as int].number as i32),
        },
        _ => m,
    }
}

/// The compiled code after one more request.
pub open spec fn after_request(
    p: Progress,
    request: Request,
    base: int,
    width: int,
    input: Seq<u8>,
) -> Progress {
    Progress {
        values: p.values.push(value_built(p, request, base, width, input)),
        machine: machine_left(p, request, base, width, input),
    }
}

/// The compiled code after a row of requests, first to last.
pub open spec fn after_requests(
    p: Progress,
    requests: Seq<Request>,
    base: int,
    width: int,
    input: Seq<u8>,
) -> Progress
    decreases requests.len(),
{
    if requests.len() == 0 {
        p
    } else {
        after_request(
            after_requests(p, requests.drop_last(), base, width, input),
            requests.last(),
            base,
            width,
            input,
        )
    }
}

/// Whether the tape lies in memory so that no address of a cell wraps: it
/// begins at `base` and ends within what a pointer of modulus `width` can
/// address, and such a pointer is wide enough for the offset's arithmetic.
pub open spec fn tape_is_placed(base: int, width: int) -> bool {
    0 <= base && base + TAPE_SIZE <= width && wide_enough(width)
}

/// Two rows of requests done one after the other are the joined row done
/// at once.
pub proof fn lemma_requests_in_a_row(
    p: Progress,
    first: Seq<Request>,
    second: Seq<Request>,
    base: int,
    width: int,
    input: Seq<u8>,
)
    ensures
        after_requests(p, first + second, base, width, input) == after_requests(
            after_requests(p, first, base, width, input),
            second,
            base,
            width,
            input,
        ),
    decreases second.len(),
{
    if second.len() == 0 {
        assert(first + second == first);
    } else {
        lemma_requests_in_a_row(p, first, second.drop_last(), base, width, input);
        assert((first + second).drop_last() == first + second.drop_last());
        assert((first + second).last() == second.last());
    }
}

/// One request done behind a row is the row with the request at its end.
proof fn lemma_one_more(p: Progress, row: Seq<Request>, request: Request, base: int, width: int, input: Seq<u8>)
    ensures
        after_requests(p, row.push(request), base, width, input) == after_request(
            after_requests(p, row, base, width, input),
            request,
            base,
            width,
            input,
        ),
{
    assert(row.push(request).drop_last() == row);
}

/// The requests at the entry make the machine fresh. Whatever memory the
/// tape is allocated in, behind them every cell is zero and the pointer is
/// on the first cell, and nothing has been read or written: the state that
/// every run starts from.
pub proof fn lemma_entry_makes_fresh(tape: TapeView, base: int, width: int, input: Seq<u8>)
    requires
        tape_is_placed(base, width),
    ensures
        after_requests(
            Progress {
                values: Seq::empty(),
                machine: MachineView { tape, consumed: 0, output: Seq::empty() },
            },
            entry_requests(),
            base,
            width,
            input,
        ).machine == fresh(),
        tape_in_bounds(fresh().tape),
{
    let p = Progress {
        values: Seq::empty(),
        machine: MachineView { tape, consumed: 0, output: Seq::empty() },
    };
    let r0 = Seq::<Request>::empty();
    let r1 = r0.push(Request::Word(TAPE_SIZE as u32));
    let r2 = r1.push(Request::Allocate { count: 0 });
    let r3 = r2.push(Request::Byte(0));
    let r4 = r3.push(Request::ZeroFill { value: 2, count: 0 });
    let r5 = r4.push(Request::Slot);
    let r6 = r5.push(Request::Wide(0));
    let r7 = r6.push(Request::StoreOffset { value: 5 });
    assert(entry_requests() =~= r7);
    lemma_one_more(p, r0, Request::Word(TAPE_SIZE as u32), base, width, input);
    lemma_one_more(p, r1, Request::Allocate { count: 0 }, base, width, input);
    lemma_one_more(p, r2, Request::Byte(0), base, width, input);
    lemma_one_more(p, r3, Request::ZeroFill { value: 2, count: 0 }, base, width, input);
    lemma_one_more(p, r4, Request::Slot, base, width, input);
    lemma_one_more(p, r5, Request::Wide(0), base, width, input);
    lemma_one_more(p, r6, Request::StoreOffset { value: 5 }, base, width, input);
    assert(after_requests(p, r0, base, width, input) == p);
    let step3 = after_requests(p, r3, base, width, input);
    let step4 = after_requests(p, r4, base, width, input);
    let step6 = after_requests(p, r6, base, width, input);
    let step7 = after_requests(p, r7, base, width, input);
    assert(step3.values[0].number == TAPE_SIZE);
    assert(step3.values[2].number == 0);
    assert(step4.machine.tape.cells =~= blank().cells);
    assert(step6.values[5].number == 0);
    assert(step6.machine.tape.cells == blank().cells);
    assert(step7.machine.tape == blank());
}

/// The requests for the address of the current cell build the pointer
/// offset, the tape's base, their sum and the pointer to the cell, and
/// leave the machine alone.
pub proof fn lemma_cell_address(p: Progress, base: int, width: int, input: Seq<u8>)
    requires
        tape_in_bounds(p.machine.tape),
        tape_is_placed(base, width),
        p.values.len() + 4 <= usize::MAX,
    ensures
        after_requests(p, cell_address_requests(p.values.len()), base, width, input) == (Progress {
            values: p.values + seq![
                Value { modulus: width, number: p.machine.tape.pointer },
                Value { modulus: width, number: base },
                Value { modulus: width, number: base + p.machine.tape.pointer },
                Value { modulus: width, number: base + p.machine.tape.pointer },
            ],
            machine: p.machine,
        }),
{
    let at = p.values.len();
    let row = cell_address_requests(at);
    let r0 = Seq::<Request>::empty();
    let r1 = r0.push(Request::LoadOffset);
    let r2 = r1.push(Request::TapeBase);
    let r3 = r2.push(Request::Add { lhs: numbered(at, 1), rhs: numbered(at, 0) });
    let r4 = r3.push(Request::Cell { address: numbered(at, 2) });
    assert(row =~= r4);
    lemma_one_more(p, r0, Request::LoadOffset, base, width, input);
    lemma_one_more(p, r1, Request::TapeBase, base, width, input);
    lemma_one_more(p, r2, Request::Add { lhs: numbered(at, 1), rhs: numbered(at, 0) }, base, width, input);
    lemma_one_more(p, r3, Request::Cell { address: numbered(at, 2) }, base, width, input);
    let step1 = after_requests(p, r1, base, width, input);
    let step2 = after_requests(p, r2, base, width, input);
    let step3 = after_requests(p, r3, base, width, input);
    let step4 = after_requests(p, r4, base, width, input);
    assert(after_requests(p, r0, base, width, input) == p);
    assert(step1.values[at as int].number == p.machine.tape.pointer);
    assert(step2.values[at as int + 1].number == base);
    lemma_small_mod((base + p.machine.tape.pointer) as nat, width as nat);
    assert(step3.values[at as int + 2].number == base + p.machine.tape.pointer);
    assert(step4.values =~= p.values + seq![
        Value { modulus: width, number: p.machine.tape.pointer },
        Value { modulus: width, number: base },
        Value { modulus: width, number: base + p.machine.tape.pointer },
        Value { modulus: width, number: base + p.machine.tape.pointer },
    ]);
}

/// The requests that read the current cell build, behind its address, the
/// byte that the cell holds, and leave the machine alone.
pub proof fn lemma_cell_read(p: Progress, base: int, width: int, input: Seq<u8>)
    requires
        tape_in_bounds(p.machine.tape),
        tape_is_placed(base, width),
        p.values.len() + 5 <= usize::MAX,
    ensures
        after_requests(p, cell_read_requests(p.values.len()), base, width, input) == (Progress {
            values: p.values + seq![
                Value { modulus: width, number: p.machine.tape.pointer },
                Value { modulus: width, number: base },
                Value { modulus: width, number: base + p.machine.tape.pointer },
                Value { modulus: width, number: base + p.machine.tape.pointer },
                Value { modulus: byte(), number: current_cell(p.machine.tape) as int },
            ],
            machine: p.machine,
        }),
{
    let at = p.values.len();
    lemma_cell_address(p, base, width, input);
    lemma_one_more(p, cell_address_requests(at), Request::Load { cell: numbered(at, 3) }, base, width, input);
    let before = after_requests(p, cell_address_requests(at), base, width, input);
    let after = after_requests(p, cell_read_requests(at), base, width, input);
    assert(before.values[at as int + 3].number - base == p.machine.tape.pointer);
    assert(after.values =~= p.values + seq![
        Value { modulus: width, number: p.machine.tape.pointer },
        Value { modulus: width, number: base },
        Value { modulus: width, number: base + p.machine.tape.pointer },
        Value { modulus: width, number: base + p.machine.tape.pointer },
        Value { modulus: byte(), number: current_cell(p.machine.tape) as int },
    ]);
}

/// The requests of a cell edit leave the machine as the edit leaves it:
/// the current cell holds its old value plus or minus the count, modulo
/// 256.
pub proof fn lemma_cell_edit(p: Progress, n: u8, add: bool, base: int, width: int, input: Seq<u8>)
    requires
        tape_in_bounds(p.machine.tape),
        tape_is_placed(base, width),
        p.values.len() + 8 <= usize::MAX,
    ensures
        after_requests(p, cell_edit_requests(p.values.len(), n, add), base, width, input).machine
            == after_op(
            p.machine,
            if add {
                Op::AddCell(n)
            } else {
                Op::SubCell(n)
            },
            input,
        ),
{
    let at = p.values.len();
    let edit = if add {
        Request::Add { lhs: numbered(at, 4), rhs: numbered(at, 5) }
    } else {
        Request::Sub { lhs: numbered(at, 4), rhs: numbered(at, 5) }
    };
    let store = Request::Store { cell: numbered(at, 3), value: numbered(at, 6) };
    let r5 = cell_read_requests(at);
    let r6 = r5.push(Request::Byte(n));
    let r7 = r6.push(edit);
    let r8 = r7.push(store);
    assert(cell_edit_requests(at, n, add) =~= r8);
    lemma_cell_read(p, base, width, input);
    lemma_one_more(p, r5, Request::Byte(n), base, width, input);
    lemma_one_more(p, r6, edit, base, width, input);
    lemma_one_more(p, r7, store, base, width, input);
    let step5 = after_requests(p, r5, base, width, input);
    let step6 = after_requests(p, r6, base, width, input);
    let step7 = after_requests(p, r7, base, width, input);
    let step8 = after_requests(p, r8, base, width, input);
    let cell = current_cell(p.machine.tape);
    assert(step6.values[at as int + 4].number == cell);
    assert(step6.values[at as int + 5].number == n);
    assert(step7.values[at as int + 6].number == cell_plus(
        cell,
        if add {
            n as int
        } else {
            -(n as int)
        },
    ));
    assert(step7.values[at as int + 3].number - base == p.machine.tape.pointer);
    assert(step8.machine.tape.cells =~= with_cell(
        p.machine.tape,
        cell_plus(
            cell,
            if add {
                n as int
            } else {
                -(n as int)
            },
        ),
    ).cells);
}

/// The requests of a shift leave the pointer where the whole run leads
/// around the ring, and no sum on the way leaves the width of a pointer.
pub proof fn lemma_shift(p: Progress, n: u64, right: bool, base: int, width: int, input: Seq<u8>)
    requires
        tape_in_bounds(p.machine.tape),
        wide_enough(width),
        p.values.len() + 8 <= usize::MAX,
    ensures
        after_requests(p, shift_requests(p.values.len(), n, right), base, width, input).machine
            == after_op(
            p.machine,
            if right {
                Op::ShiftRight(n)
            } else {
                Op::ShiftLeft(n)
            },
            input,
        ),
{
    let at = p.values.len();
    let size = TAPE_SIZE as int;
    let amount = n as int % size;
    let offset = p.machine.tape.pointer;
    let r0 = Seq::<Request>::empty();
    let r1 = r0.push(Request::Wide(TAPE_SIZE));
    let r2 = r1.push(Request::Wide((n % TAPE_SIZE) as u64));
    let r3 = r2.push(Request::LoadOffset);
    lemma_one_more(p, r0, Request::Wide(TAPE_SIZE), base, width, input);
    lemma_one_more(p, r1, Request::Wide((n % TAPE_SIZE) as u64), base, width, input);
    lemma_one_more(p, r2, Request::LoadOffset, base, width, input);
    assert(after_requests(p, r0, base, width, input) == p);
    let step3 = after_requests(p, r3, base, width, input);
    assert(step3.values[at as int].number == size);
    assert(step3.values[at as int + 1].number == amount);
    assert(step3.values[at as int + 2].number == offset);
    assert(step3.machine == p.machine);
    if right {
        let add = Request::Add { lhs: numbered(at, 2), rhs: numbered(at, 1) };
        let rem = Request::Rem { lhs: numbered(at, 3), rhs: numbered(at, 0) };
        let store = Request::StoreOffset { value: numbered(at, 4) };
        let r4 = r3.push(add);
        let r5 = r4.push(rem);
        let r6 = r5.push(store);
        assert(shift_requests(at, n, right) =~= r6);
        lemma_one_more(p, r3, add, base, width, input);
        lemma_one_more(p, r4, rem, base, width, input);
        lemma_one_more(p, r5, store, base, width, input);
        let step4 = after_requests(p, r4, base, width, input);
        let step5 = after_requests(p, r5, base, width, input);
        lemma_small_mod((offset + amount) as nat, width as nat);
        assert(step4.values[at as int + 3].number == offset + amount);
        assert(step4.values[at as int].number == size);
        lemma_add_mod_noop_right(offset, n as int, size);
        assert(step5.values[at as int + 4].number == ring_offset(offset, n as int, size));
    } else {
        let add = Request::Add { lhs: numbered(at, 2), rhs: numbered(at, 0) };
        let sub = Request::Sub { lhs: numbered(at, 3), rhs: numbered(at, 1) };
        let rem = Request::Rem { lhs: numbered(at, 4), rhs: numbered(at, 0) };
        let store = Request::StoreOffset { value: numbered(at, 5) };
        let r4 = r3.push(add);
        let r5 = r4.push(sub);
        let r6 = r5.push(rem);
        let r7 = r6.push(store);
        assert(shift_requests(at, n, right) =~= r7);
        lemma_one_more(p, r3, add, base, width, input);
        lemma_one_more(p, r4, sub, base, width, input);
        lemma_one_more(p, r5, rem, base, width, input);
        lemma_one_more(p, r6, store, base, width, input);
        let step4 = after_requests(p, r4, base, width, input);
        let step5 = after_requests(p, r5, base, width, input);
        let step6 = after_requests(p, r6, base, width, input);
        lemma_small_mod((offset + size) as nat, width as nat);
        assert(step4.values[at as int + 3].number == offset + size);
        assert(step5.values[at as int + 1].number == amount);
        lemma_small_mod((offset + size - amount) as nat, width as nat);
        assert(step5.values[at as int + 4].number == offset + size - amount);
        assert(step6.values[at as int].number == size);
        lemma_sub_mod_noop_right(offset, n as int, size);
        lemma_mod_multiples_vanish(1, offset - amount, size);
        assert(size * 1 + (offset - amount) == offset + size - amount);
        assert(offset + -(n as int) == offset - n as int);
        assert(step6.values[at as int + 5].number == ring_offset(offset, -(n as int), size));
    }
}

/// The requests of an output pass the current cell, widened with zeros, to
/// the output routine once, and change nothing else.
pub proof fn lemma_output(p: Progress, base: int, width: int, input: Seq<u8>)
    requires
        tape_in_bounds(p.machine.tape),
        tape_is_placed(base, width),
        p.values.len() + 8 <= usize::MAX,
    ensures
        after_requests(p, output_requests(p.values.len()), base, width, input).machine == after_op(
            p.machine,
            Op::Output,
            input,
        ),
{
    let at = p.values.len();
    let widen = Request::Widen { value: numbered(at, 4) };
    let put = Request::Put { value: numbered(at, 5) };
    let r5 = cell_read_requests(at);
    let r6 = r5.push(widen);
    let r7 = r6.push(put);
    assert(output_requests(at) =~= r7);
    lemma_cell_read(p, base, width, input);
    lemma_one_more(p, r5, widen, base, width, input);
    lemma_one_more(p, r6, put, base, width, input);
    let step5 = after_requests(p, r5, base, width, input);
    let step6 = after_requests(p, r6, base, width, input);
    assert(step5.values[at as int + 4].number == current_cell(p.machine.tape));
    assert(step6.values[at as int + 5].number == current_cell(p.machine.tape));
}

/// The requests of an input call the input routine once and store the low
/// byte of what it returns in the current cell.
pub proof fn lemma_input(p: Progress, base: int, width: int, input: Seq<u8>)
    requires
        tape_in_bounds(p.machine.tape),
        tape_is_placed(base, width),
        p.values.len() + 8 <= usize::MAX,
    ensures
        after_requests(p, input_requests(p.values.len()), base, width, input).machine == after_op(
            p.machine,
            Op::Input,
            input,
        ),
{
    let at = p.values.len();
    let narrow = Request::Narrow { value: numbered(at, 0) };
    let store = Request::Store { cell: numbered(at, 5), value: numbered(at, 1) };
    let r0 = Seq::<Request>::empty();
    let r1 = r0.push(Request::Get);
    let r2 = r1.push(narrow);
    lemma_one_more(p, r0, Request::Get, base, width, input);
    lemma_one_more(p, r1, narrow, base, width, input);
    assert(after_requests(p, r0, base, width, input) == p);
    let got = host_read(input, p.machine.consumed);
    let step2 = after_requests(p, r2, base, width, input);
    lemma_mod_mod(got as int, 0x100, 0x100_0000);
    assert(step2.values[at as int + 1].number == narrowed(got));
    assert(step2.values.len() == at + 2);
    lemma_cell_address(step2, base, width, input);
    let r6 = r2 + cell_address_requests(at + 2);
    lemma_requests_in_a_row(p, r2, cell_address_requests(at + 2), base, width, input);
    let step6 = after_requests(p, r6, base, width, input);
    let r7 = r6.push(store);
    assert(input_requests(at) =~= r7);
    lemma_one_more(p, r6, store, base, width, input);
    let step7 = after_requests(p, r7, base, width, input);
    assert(step6.values[at as int + 5].number - base == p.machine.tape.pointer);
    assert(step6.values[at as int + 1].number == narrowed(got));
    assert(step7.machine.tape.cells =~= with_cell(p.machine.tape, narrowed(got)).cells);
}

/// What is asked of the builder for an operation does the operation: the
/// requests leave the machine exactly as the operation is meant to leave
/// it.
pub proof fn lemma_requests_do_the_operation(p: Progress, op: Op, base: int, width: int, input: Seq<u8>)
    requires
        tape_in_bounds(p.machine.tape),
        tape_is_placed(base, width),
        p.values.len() + 8 <= usize::MAX,
    ensures
        after_requests(p, op_requests(p.values.len(), op), base, width, input).machine == after_op(
            p.machine,
            op,
            input,
        ),
{
    match op {
        Op::AddCell(n) => lemma_cell_edit(p, n, true, base, width, input),
        Op::SubCell(n) => lemma_cell_edit(p, n, false, base, width, input),
        Op::ShiftRight(n) => lemma_shift(p, n, true, base, width, input),
        Op::ShiftLeft(n) => lemma_shift(p, n, false, base, width, input),
        Op::Output => lemma_output(p, base, width, input),
        Op::Input => lemma_input(p, base, width, input),
    }
}

/// The requests of a loop test leave the machine alone and branch on the
/// current cell: the value that the branch tests is one where the cell is
/// zero and zero where it is not.
pub proof fn lemma_branch_tests_the_cell(
    p: Progress,
    exit: usize,
    body: usize,
    base: int,
    width: int,
    input: Seq<u8>,
)
    requires
        tape_in_bounds(p.machine.tape),
        tape_is_placed(base, width),
        p.values.len() + 8 <= usize::MAX,
    ensures
        after_requests(p, branch_requests(p.values.len(), exit, body), base, width, input).machine
            == p.machine,
        branch_requests(p.values.len(), exit, body).last() == (Request::Branch {
            test: numbered(p.values.len(), 6),
            exit,
            body,
        }),
        after_requests(p, branch_requests(p.values.len(), exit, body), base, width, input).values[
            p.values.len() as int + 6
        ].number == if current_cell(p.machine.tape) == 0 {
            1int
        } else {
            0int
        },
{
    let at = p.values.len();
    let equal = Request::Equal { lhs: numbered(at, 4), rhs: numbered(at, 5) };
    let branch = Request::Branch { test: numbered(at, 6), exit, body };
    let r5 = cell_read_requests(at);
    let r6 = r5.push(Request::Byte(0));
    let r7 = r6.push(equal);
    let r8 = r7.push(branch);
    assert(branch_requests(at, exit, body) =~= r8);
    lemma_cell_read(p, base, width, input);
    lemma_one_more(p, r5, Request::Byte(0), base, width, input);
    lemma_one_more(p, r6, equal, base, width, input);
    lemma_one_more(p, r7, branch, base, width, input);
    let step6 = after_requests(p, r6, base, width, input);
    let step7 = after_requests(p, r7, base, width, input);
    assert(step6.values[at as int + 4].number == current_cell(p.machine.tape));
    assert(step6.values[at as int + 5].number == 0);
    assert(step7.values[at as int + 6].number == if current_cell(p.machine.tape) == 0 {
        1int
    } else {
        0int
    });
}

/// Every request builds one value.
pub proof fn lemma_one_value_each(p: Progress, requests: Seq<Request>, base: int, width: int, input: Seq<u8>)
    ensures
        after_requests(p, requests, base, width, input).values.len() == p.values.len() + requests.len(),
    decreases requests.len(),
{
    if requests.len() > 0 {
        lemma_one_value_each(p, requests.drop_last(), base, width, input);
    }
}

/// An operation leaves the tape with all its cells and the pointer on one
/// of them.
pub proof fn lemma_tape_stays_in_bounds(m: MachineView, op: Op, input: Seq<u8>)
    requires
        tape_in_bounds(m.tape),
    ensures
        tape_in_bounds(after_op(m, op, input).tape),
{
}

/// What is asked of the builder for the operations of a block does them:
/// from the start of a block, the requests leave the machine as the
/// block's operations, one after another, are meant to leave it. The bound
/// is that of a machine that can number the requests.
pub proof fn lemma_requests_do_the_operations(
    m: MachineView,
    ops: Seq<Op>,
    base: int,
    width: int,
    input: Seq<u8>,
)
    requires
        tape_in_bounds(m.tape),
        tape_is_placed(base, width),
        ops_requests(ops).len() + 8 <= usize::MAX,
    ensures
        after_requests(
            Progress { values: Seq::empty(), machine: m },
            ops_requests(ops),
            base,
            width,
            input,
        ).machine == after_ops(m, ops, input),
        tape_in_bounds(after_ops(m, ops, input).tape),
    decreases ops.len(),
{
    let start = Progress { values: Seq::empty(), machine: m };
    if ops.len() > 0 {
        let before = ops_requests(ops.drop_last());
        let more = op_requests(before.len(), ops.last());
        lemma_requests_do_the_operations(m, ops.drop_last(), base, width, input);
        let p = after_requests(start, before, base, width, input);
        lemma_one_value_each(start, before, base, width, input);
        lemma_requests_in_a_row(start, before, more, base, width, input);
        lemma_requests_do_the_operation(p, ops.last(), base, width, input);
        lemma_tape_stays_in_bounds(p.machine, ops.last(), input);
    }
}

} // verus!
