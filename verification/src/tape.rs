use vstd::prelude::*;
use vstd::arithmetic::div_mod::{
    lemma_add_mod_noop_right, lemma_fundamental_div_mod, lemma_mod_multiples_vanish,
    lemma_small_mod, lemma_sub_mod_noop_right,
};

verus! {

/// Number of cells on the tape.
pub const TAPE_SIZE: u64 = 65535;

/// The cell value after adding `n` to `cell`, modulo 256. A negative `n`
/// subtracts.
pub open spec fn cell_plus(cell: u8, n: int) -> u8 {
    ((cell as int + n) % 256) as u8
}

/// The pointer offset that lies `delta` cells to the right of `offset` on a
/// ring of `size` cells. A negative `delta` moves left.
pub open spec fn ring_offset(offset: int, delta: int, size: int) -> int
    recommends
        size > 0,
{
    (offset + delta) % size
}

/// A cell after `times` single increments.
pub open spec fn incremented(cell: u8, times: nat) -> u8
    decreases times,
{
    if times == 0 {
        cell
    } else {
        cell_plus(incremented(cell, (times - 1) as nat), 1)
    }
}

/// A cell after `times` single decrements.
pub open spec fn decremented(cell: u8, times: nat) -> u8
    decreases times,
{
    if times == 0 {
        cell
    } else {
        cell_plus(decremented(cell, (times - 1) as nat), -1)
    }
}

/// A pointer offset after `times` shifts of one cell to the right.
pub open spec fn stepped_right(offset: int, times: nat, size: int) -> int
    decreases times,
{
    if times == 0 {
        offset
    } else {
        ring_offset(stepped_right(offset, (times - 1) as nat, size), 1, size)
    }
}

/// A pointer offset after `times` shifts of one cell to the left.
pub open spec fn stepped_left(offset: int, times: nat, size: int) -> int
    decreases times,
{
    if times == 0 {
        offset
    } else {
        ring_offset(stepped_left(offset, (times - 1) as nat, size), -1, size)
    }
}

/// Reducing on the way changes nothing: a remainder moved by `d` and
/// reduced again is the whole sum reduced once.
pub(crate) proof fn lemma_reduce_once(a: int, d: int, m: int)
    requires
        m > 0,
    ensures
        ((a % m) + d) % m == (a + d) % m,
{
    lemma_add_mod_noop_right(d, a, m);
    assert(d + (a % m) == (a % m) + d);
    assert(d + a == a + d);
}

/// Adding a folded count does what the run did: `times` increments one by
/// one leave the cell where one addition of `times` modulo 256 leaves it,
/// and so for decrements.
pub proof fn lemma_folded_cell_edit(cell: u8, times: nat)
    ensures
        incremented(cell, times) == cell_plus(cell, (times % 256) as int),
        decremented(cell, times) == cell_plus(cell, -((times % 256) as int)),
{
    lemma_cell_edits_add_up(cell, times);
    lemma_add_mod_noop_right(cell as int, times as int, 256);
    lemma_sub_mod_noop_right(cell as int, times as int, 256);
    assert(cell as int + -((times % 256) as int) == cell as int - (times as int % 256));
    assert(cell as int + -(times as int) == cell as int - times as int);
}

/// `times` single increments add `times`, and `times` single decrements
/// subtract it, modulo 256.
pub proof fn lemma_cell_edits_add_up(cell: u8, times: nat)
    ensures
        incremented(cell, times) == cell_plus(cell, times as int),
        decremented(cell, times) == cell_plus(cell, -(times as int)),
    decreases times,
{
    if times == 0 {
        lemma_small_mod(cell as nat, 256);
    } else {
        lemma_cell_edits_add_up(cell, (times - 1) as nat);
        lemma_reduce_once(cell as int + (times - 1), 1, 256);
        lemma_reduce_once(cell as int + -(times - 1), -1, 256);
        assert(cell as int + (times - 1) + 1 == cell as int + times as int);
        assert(cell as int + -(times - 1) + -1 == cell as int + -(times as int));
    }
}

/// Cells wrap around at 256: that many increments bring any cell back to
/// where it was, and 255 increments followed by one decrement leave a zero
/// cell at 254.
pub proof fn lemma_cell_wraparound(cell: u8)
    ensures
        incremented(cell, 256) == cell,
        incremented(0, 256) == 0,
        decremented(incremented(0, 255), 1) == 254,
{
    lemma_folded_cell_edit(cell, 256);
    lemma_folded_cell_edit(0, 256);
    lemma_folded_cell_edit(0, 255);
    lemma_folded_cell_edit(255, 1);
}

/// A shift by a whole run is the run's single shifts one after another, for
/// any run length, also one longer than the tape.
pub proof fn lemma_folded_shift(offset: int, times: nat, size: int)
    requires
        size > 0,
        0 <= offset < size,
    ensures
        stepped_right(offset, times, size) == ring_offset(offset, times as int, size),
        stepped_left(offset, times, size) == ring_offset(offset, -(times as int), size),
    decreases times,
{
    if times == 0 {
        lemma_small_mod(offset as nat, size as nat);
    } else {
        lemma_folded_shift(offset, (times - 1) as nat, size);
        lemma_reduce_once(offset + (times - 1), 1, size);
        lemma_reduce_once(offset + -(times - 1), -1, size);
        assert(offset + (times - 1) + 1 == offset + times as int);
        assert(offset + -(times - 1) + -1 == offset + -(times as int));
    }
}

/// The tape is a ring: as many shifts to the right as it has cells bring
/// the pointer back to its cell, and one shift more is one shift.
pub proof fn lemma_pointer_wraparound(offset: int, size: nat)
    requires
        size > 0,
        0 <= offset < size,
    ensures
        stepped_right(offset, size, size as int) == offset,
        stepped_right(offset, (size + 1) as nat, size as int) == stepped_right(
            offset,
            1,
            size as int,
        ),
        ring_offset(offset, size as int, size as int) == offset,
        ring_offset(offset, size as int + 1, size as int) == ring_offset(offset, 1, size as int),
{
    lemma_folded_shift(offset, size, size as int);
    lemma_folded_shift(offset, (size + 1) as nat, size as int);
    lemma_folded_shift(offset, 1, size as int);
    lemma_mod_multiples_vanish(1, offset, size as int);
    lemma_mod_multiples_vanish(1, offset + 1, size as int);
    lemma_small_mod(offset as nat, size);
    assert(size as int * 1 + offset == offset + size as int);
    assert(size as int * 1 + (offset + 1) == offset + (size as int + 1));
}

/// Adds `n` to a cell with 8-bit wraparound.
pub fn add_cell(cell: u8, n: u8) -> (r: u8)
    ensures
        r == cell_plus(cell, n as int),
{
    cell.wrapping_add(n)
}

/// Subtracts `n` from a cell with 8-bit wraparound.
pub fn sub_cell(cell: u8, n: u8) -> (r: u8)
    ensures
        r == cell_plus(cell, -(n as int)),
{
    cell.wrapping_sub(n)
}

/// The pointer offset after a shift of `n` cells to the right from `offset`.
/// The sum is taken without truncation and reduced once.
pub fn shift_right(offset: u64, n: u64) -> (r: u64)
    ensures
        r == ring_offset(offset as int, n as int, TAPE_SIZE as int),
        r < TAPE_SIZE,
{
    let sum: u128 = offset as u128 + n as u128;
    (sum % (TAPE_SIZE as u128)) as u64
}

/// The pointer offset after a shift of `n` cells to the left from `offset`.
pub fn shift_left(offset: u64, n: u64) -> (r: u64)
    ensures
        r == ring_offset(offset as int, -(n as int), TAPE_SIZE as int),
        r < TAPE_SIZE,
{
    let back: u64 = n % TAPE_SIZE;
    let here: u64 = offset % TAPE_SIZE;
    let r: u64 = (here + (TAPE_SIZE - back)) % TAPE_SIZE;
    assert(r == (offset as int - n as int) % (TAPE_SIZE as int)) by {
        lemma_fundamental_div_mod(n as int, TAPE_SIZE as int);
        lemma_fundamental_div_mod(offset as int, TAPE_SIZE as int);
        let q: int = (offset as int) / (TAPE_SIZE as int) - (n as int) / (TAPE_SIZE as int) - 1;
        lemma_mod_multiples_vanish(
            q,
            here as int + TAPE_SIZE as int - back as int,
            TAPE_SIZE as int,
        );
    }
    r
}

/// The amount that compiled code adds to, or takes from, the pointer offset
/// for a shift of `n` cells: `n` reduced to less than the tape's size.
///
/// Compiled code keeps the offset in 64 bits and below `TAPE_SIZE`. For a
/// shift to the right it adds this amount and reduces the sum. For a shift
/// to the left it first adds `TAPE_SIZE`, then takes this amount away and
/// reduces. Neither leaves the range of 64 bits, and both end on the cell
/// that the whole run leads to.
pub fn shift_amount(n: u64) -> (amount: u64)
    ensures
        amount == n % TAPE_SIZE,
        forall|offset: int|
            0 <= offset < TAPE_SIZE ==> offset + amount <= u64::MAX && (offset + amount) % (
            TAPE_SIZE as int) == #[trigger] ring_offset(offset, n as int, TAPE_SIZE as int),
        forall|offset: int|
            0 <= offset < TAPE_SIZE ==> 0 <= offset + TAPE_SIZE - amount <= u64::MAX && (offset
                + TAPE_SIZE - amount) % (TAPE_SIZE as int) == #[trigger] ring_offset(
                offset,
                -(n as int),
                TAPE_SIZE as int,
            ),
{
    let amount: u64 = n % TAPE_SIZE;
    proof {
        assert forall|offset: int| 0 <= offset < TAPE_SIZE implies (offset + amount) % (
        TAPE_SIZE as int) == #[trigger] ring_offset(offset, n as int, TAPE_SIZE as int) by {
            lemma_add_mod_noop_right(offset, n as int, TAPE_SIZE as int);
        }
        assert forall|offset: int| 0 <= offset < TAPE_SIZE implies (offset + TAPE_SIZE - amount)
            % (TAPE_SIZE as int) == #[trigger] ring_offset(
            offset,
            -(n as int),
            TAPE_SIZE as int,
        ) by {
            lemma_sub_mod_noop_right(offset, n as int, TAPE_SIZE as int);
            lemma_mod_multiples_vanish(1, offset - amount, TAPE_SIZE as int);
            assert(TAPE_SIZE as int * 1 + (offset - amount) == offset + TAPE_SIZE - amount);
            assert(offset + -(n as int) == offset - n as int);
        }
    }
    amount
}

/// What a tape holds: its cells and the offset of the current one.
pub struct TapeView {
    pub cells: Seq<u8>,
    pub pointer: int,
}

/// The tape before the first instruction: every cell zero, the pointer on
/// the first cell.
pub open spec fn blank() -> TapeView {
    TapeView { cells: Seq::new(TAPE_SIZE as nat, |i: int| 0u8), pointer: 0 }
}

/// The value of the cell under the pointer.
pub open spec fn current_cell(t: TapeView) -> u8 {
    t.cells[t.pointer]
}

/// The tape with `value` in the cell under the pointer.
pub open spec fn with_cell(t: TapeView, value: u8) -> TapeView {
    TapeView { cells: t.cells.update(t.pointer, value), pointer: t.pointer }
}

/// The tape with the pointer `delta` cells further right around the ring.
pub open spec fn with_shift(t: TapeView, delta: int) -> TapeView {
    TapeView { cells: t.cells, pointer: ring_offset(t.pointer, delta, TAPE_SIZE as int) }
}

/// The memory of a running program: a ring of `TAPE_SIZE` byte cells and a
/// pointer that always rests on one of them.
pub struct Tape {
    cells: Vec<u8>,
    pointer: usize,
}

impl View for Tape {
    type V = TapeView;

    closed spec fn view(&self) -> TapeView {
        TapeView { cells: self.cells@, pointer: self.pointer as int }
    }
}

impl Tape {
    #[verifier::type_invariant]
    spec fn in_bounds(&self) -> bool {
        self.cells@.len() == TAPE_SIZE && self.pointer < TAPE_SIZE
    }

    /// A tape of zero cells with the pointer on the first.
    pub fn new() -> (tape: Tape)
        ensures
            tape@ == blank(),
    {
        let mut cells: Vec<u8> = Vec::new();
        let mut i: u64 = 0;
        while i < TAPE_SIZE
            invariant
                i <= TAPE_SIZE,
                cells@ == Seq::new(i as nat, |k: int| 0u8),
            decreases TAPE_SIZE - i,
        {
            cells.push(0);
            i = i + 1;
            assert(cells@ =~= Seq::new(i as nat, |k: int| 0u8));
        }
        Tape { cells, pointer: 0 }
    }

    /// The offset of the current cell.
    pub fn pointer(&self) -> (offset: usize)
        ensures
            offset == self@.pointer,
            offset < TAPE_SIZE,
            self@.cells.len() == TAPE_SIZE,
    {
        proof {
            use_type_invariant(self);
        }
        self.pointer
    }

    /// The value of the current cell.
    pub fn current(&self) -> (value: u8)
        ensures
            value == current_cell(self@),
    {
        proof {
            use_type_invariant(self);
        }
        self.cells[self.pointer]
    }

    /// The value of the cell at `offset`, if the tape has such a cell.
    pub fn cell(&self, offset: usize) -> (value: Option<u8>)
        ensures
            self@.cells.len() == TAPE_SIZE,
            offset < TAPE_SIZE ==> value == Some(self@.cells[offset as int]),
            offset >= TAPE_SIZE ==> value.is_none(),
    {
        proof {
            use_type_invariant(self);
        }
        if offset < self.cells.len() {
            Some(self.cells[offset])
        } else {
            None
        }
    }

    /// The tape with `value` stored in the current cell.
    pub fn store(self, value: u8) -> (tape: Tape)
        ensures
            tape@ == with_cell(self@, value),
    {
        proof {
            use_type_invariant(&self);
        }
        let Tape { mut cells, pointer } = self;
        cells.set(pointer, value);
        Tape { cells, pointer }
    }

    /// The tape with `n` added to the current cell, modulo 256.
    pub fn add(self, n: u8) -> (tape: Tape)
        ensures
            tape@ == with_cell(self@, cell_plus(current_cell(self@), n as int)),
    {
        let value = add_cell(self.current(), n);
        self.store(value)
    }

    /// The tape with `n` subtracted from the current cell, modulo 256.
    pub fn sub(self, n: u8) -> (tape: Tape)
        ensures
            tape@ == with_cell(self@, cell_plus(current_cell(self@), -(n as int))),
    {
        let value = sub_cell(self.current(), n);
        self.store(value)
    }

    /// The tape with the pointer `n` cells further right around the ring.
    pub fn right(self, n: u64) -> (tape: Tape)
        ensures
            tape@ == with_shift(self@, n as int),
    {
        proof {
            use_type_invariant(&self);
        }
        let Tape { cells, pointer } = self;
        Tape { cells, pointer: shift_right(pointer as u64, n) as usize }
    }

    /// The tape with the pointer `n` cells further left around the ring.
    pub fn left(self, n: u64) -> (tape: Tape)
        ensures
            tape@ == with_shift(self@, -(n as int)),
    {
        proof {
            use_type_invariant(&self);
        }
        let Tape { cells, pointer } = self;
        Tape { cells, pointer: shift_left(pointer as u64, n) as usize }
    }
}

} // verus!
