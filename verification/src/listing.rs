use vstd::prelude::*;
use crate::function::{BlockKind, BlockView, FunctionView, Op, OutputMode, Terminator};
use crate::tape::TAPE_SIZE;

verus! {

/// One request to the builder of the backend. The requests of a block are
/// numbered from zero, and a request names the value of an earlier one by
/// that request's number.
#[derive(Clone, Copy, Debug, PartialEq, Eq, Structural)]
pub enum Request {
    /// An 8-bit constant.
    Byte(u8),
    /// A 32-bit constant.
    Word(u32),
    /// A constant as wide as a pointer of the machine.
    Wide(u64),
    /// Load the pointer offset from its slot, as wide as a pointer.
    LoadOffset,
    /// Store a pointer-wide value in the slot of the pointer offset.
    StoreOffset { value: usize },
    /// The base address of the tape as a pointer-wide integer.
    TapeBase,
    /// The sum of two values, wrapping at their width.
    Add { lhs: usize, rhs: usize },
    /// The difference of two values, wrapping at their width.
    Sub { lhs: usize, rhs: usize },
    /// The unsigned remainder of `lhs` by `rhs`.
    Rem { lhs: usize, rhs: usize },
    /// A pointer-wide address as a pointer to a cell.
    Cell { address: usize },
    /// Load the byte that a cell pointer points to.
    Load { cell: usize },
    /// Store a byte through a cell pointer.
    Store { cell: usize, value: usize },
    /// A byte widened to 32 bits with zeros.
    Widen { value: usize },
    /// The low byte of a 32-bit value.
    Narrow { value: usize },
    /// Whether two values are equal, as one bit.
    Equal { lhs: usize, rhs: usize },
    /// Call the host's input routine; its result is a 32-bit value.
    Get,
    /// Call the host's output routine with a 32-bit value.
    Put { value: usize },
    /// End the block: go to block `exit` where `test` holds, else to block
    /// `body`.
    Branch { test: usize, exit: usize, body: usize },
    /// Allocate the tape: as many cells as the value `count` says.
    Allocate { count: usize },
    /// Fill the first `count` cells of the tape with the byte `value`.
    ZeroFill { value: usize, count: usize },
    /// Make the slot that holds the pointer offset, as wide as a pointer.
    Slot,
    /// Free the tape.
    Free,
    /// End the block by returning the tape's base address.
    ReturnTape,
    /// End the block by returning a 32-bit status.
    ReturnStatus { value: usize },
}

/// The number of the request that stands `k` places behind position `at`.
pub open spec fn numbered(at: nat, k: nat) -> usize {
    (at + k) as usize
}

/// The requests that make the address of the current cell, from position
/// `at` on: the pointer offset is read afresh from its slot and added to the
/// tape's base. The pointer is the value of the last request.
pub open spec fn cell_address_requests(at: nat) -> Seq<Request> {
    seq![
        Request::LoadOffset,
        Request::TapeBase,
        Request::Add { lhs: numbered(at, 1), rhs: numbered(at, 0) },
        Request::Cell { address: numbered(at, 2) },
    ]
}

/// The requests that read the current cell: its address, then a load. The
/// pointer is the value of request `at + 3`, the byte that of `at + 4`.
pub open spec fn cell_read_requests(at: nat) -> Seq<Request> {
    cell_address_requests(at).push(Request::Load { cell: numbered(at, 3) })
}

/// The requests that add `n` to the current cell, or subtract it: the cell
/// is loaded, the count added or subtracted in 8 bits, the result stored
/// back.
pub open spec fn cell_edit_requests(at: nat, n: u8, add: bool) -> Seq<Request> {
    cell_read_requests(at) + seq![
        Request::Byte(n),
        if add {
            Request::Add { lhs: numbered(at, 4), rhs: numbered(at, 5) }
        } else {
            Request::Sub { lhs: numbered(at, 4), rhs: numbered(at, 5) }
        },
        Request::Store { cell: numbered(at, 3), value: numbered(at, 6) },
    ]
}

/// The requests that move the pointer by a run of `n` shifts.
///
/// The offset is loaded. To the right, the run's length reduced to the tape
/// is added. To the left, the tape's size is added first and the reduced
/// length then taken away, so that the difference is never below zero. The
/// result is reduced once by an unsigned remainder and stored back.
pub open spec fn shift_requests(at: nat, n: u64, right: bool) -> Seq<Request> {
    let head = seq![
        Request::Wide(TAPE_SIZE),
        Request::Wide((n % TAPE_SIZE) as u64),
        Request::LoadOffset,
    ];
    if right {
        head + seq![
            Request::Add { lhs: numbered(at, 2), rhs: numbered(at, 1) },
            Request::Rem { lhs: numbered(at, 3), rhs: numbered(at, 0) },
            Request::StoreOffset { value: numbered(at, 4) },
        ]
    } else {
        head + seq![
            Request::Add { lhs: numbered(at, 2), rhs: numbered(at, 0) },
            Request::Sub { lhs: numbered(at, 3), rhs: numbered(at, 1) },
            Request::Rem { lhs: numbered(at, 4), rhs: numbered(at, 0) },
            Request::StoreOffset { value: numbered(at, 5) },
        ]
    }
}

/// The requests that pass the current cell to the output routine: the cell
/// is read, widened with zeros and handed over.
pub open spec fn output_requests(at: nat) -> Seq<Request> {
    cell_read_requests(at) + seq![
        Request::Widen { value: numbered(at, 4) },
        Request::Put { value: numbered(at, 5) },
    ]
}

/// The requests that store what the input routine returns: the routine is
/// called, its result narrowed to a byte and stored in the current cell.
pub open spec fn input_requests(at: nat) -> Seq<Request> {
    seq![Request::Get, Request::Narrow { value: numbered(at, 0) }] + cell_address_requests(
        at + 2,
    ) + seq![Request::Store { cell: numbered(at, 5), value: numbered(at, 1) }]
}

/// The requests of one operation, from position `at` on.
pub open spec fn op_requests(at: nat, op: Op) -> Seq<Request> {
    match op {
        Op::AddCell(n) => cell_edit_requests(at, n, true),
        Op::SubCell(n) => cell_edit_requests(at, n, false),
        Op::ShiftRight(n) => shift_requests(at, n, true),
        Op::ShiftLeft(n) => shift_requests(at, n, false),
        Op::Output => output_requests(at),
        Op::Input => input_requests(at),
    }
}

/// The requests of the test at either end of a loop: the current cell is
/// read again and compared with zero; zero goes to `exit`, anything else to
/// `body`.
pub open spec fn branch_requests(at: nat, exit: usize, body: usize) -> Seq<Request> {
    cell_read_requests(at) + seq![
        Request::Byte(0),
        Request::Equal { lhs: numbered(at, 4), rhs: numbered(at, 5) },
        Request::Branch { test: numbered(at, 6), exit, body },
    ]
}

/// The requests at the entry of the function, before those of its first
/// block: the tape is allocated with `TAPE_SIZE` cells and filled with
/// zeros, the slot of the pointer offset is made and set to zero.
pub open spec fn entry_requests() -> Seq<Request> {
    seq![
        Request::Word(TAPE_SIZE as u32),
        Request::Allocate { count: 0 },
        Request::Byte(0),
        Request::ZeroFill { value: 2, count: 0 },
        Request::Slot,
        Request::Wide(0),
        Request::StoreOffset { value: 5 },
    ]
}

/// The requests of the epilogue. A function that runs in this process
/// returns its tape. One that goes to an object file frees the tape and
/// returns the status zero.
pub open spec fn return_requests(at: nat, mode: OutputMode) -> Seq<Request> {
    match mode {
        OutputMode::Execute => seq![Request::ReturnTape],
        OutputMode::Emit => seq![
            Request::Free,
            Request::Word(0),
            Request::ReturnStatus { value: numbered(at, 1) },
        ],
    }
}

/// The requests of a block's terminator.
pub open spec fn terminator_requests(at: nat, terminator: Terminator, mode: OutputMode) -> Seq<
    Request,
> {
    match terminator {
        Terminator::Branch { exit, body } => branch_requests(at, exit, body),
        Terminator::Return => return_requests(at, mode),
    }
}

/// The requests of a row of operations, one operation after another.
pub open spec fn ops_requests(ops: Seq<Op>) -> Seq<Request>
    decreases ops.len(),
{
    if ops.len() == 0 {
        Seq::empty()
    } else {
        let before = ops_requests(ops.drop_last());
        before + op_requests(before.len(), ops.last())
    }
}

/// Everything that is asked of the builder for one block: the requests of
/// its operations, then those of its terminator.
pub open spec fn block_requests(block: BlockView, mode: OutputMode) -> Seq<Request> {
    let body = ops_requests(block.ops);
    body + terminator_requests(body.len(), block.terminator, mode)
}

/// A routine that the module names: the two routines of the host, and
/// the compiled function itself.
#[derive(Clone, Copy, Debug, PartialEq, Eq, Structural)]
pub enum Routine {
    /// The host's output routine, `putchar`.
    Output,
    /// The host's input routine, `getchar`.
    Input,
    /// The compiled function, `main`.
    Main,
}

/// What a routine returns.
#[derive(Clone, Copy, Debug, PartialEq, Eq, Structural)]
pub enum Returns {
    /// A 32-bit value.
    Word,
    /// The address of a tape.
    Tape,
}

/// How a routine is declared in the module: whether it takes one 32-bit
/// value or nothing, and what it returns.
#[derive(Clone, Copy, Debug, PartialEq, Eq, Structural)]
pub struct Signature {
    pub routine: Routine,
    pub takes_word: bool,
    pub returns: Returns,
}

/// The name under which a routine is declared.
pub open spec fn name_of(routine: Routine) -> &'static str {
    match routine {
        Routine::Output => "putchar",
        Routine::Input => "getchar",
        Routine::Main => "main",
    }
}

/// The declarations of a module, in order. The output routine takes a
/// 32-bit value and returns one, the input routine takes nothing and
/// returns one. The compiled function takes nothing; it returns its tape
/// where it runs in this process, and a 32-bit status where it goes to an
/// object file.
pub open spec fn declarations(mode: OutputMode) -> Seq<Signature> {
    seq![
        Signature { routine: Routine::Output, takes_word: true, returns: Returns::Word },
        Signature { routine: Routine::Input, takes_word: false, returns: Returns::Word },
        Signature {
            routine: Routine::Main,
            takes_word: false,
            returns: match mode {
                OutputMode::Execute => Returns::Tape,
                OutputMode::Emit => Returns::Word,
            },
        },
    ]
}

/// The name under which a routine is declared.
pub fn routine_name(routine: Routine) -> (name: &'static str)
    ensures
        name@ == name_of(routine)@,
{
    match routine {
        Routine::Output => "putchar",
        Routine::Input => "getchar",
        Routine::Main => "main",
    }
}

/// The name that a block is given in the module.
pub open spec fn block_name_of(kind: BlockKind) -> &'static str {
    match kind {
        BlockKind::Entry => "entry",
        BlockKind::LoopBody => "start_of_loop",
        BlockKind::LoopExit => "end_of_loop",
    }
}

/// The name that a block is given in the module.
pub fn block_name(kind: BlockKind) -> (name: &'static str)
    ensures
        name@ == block_name_of(kind)@,
{
    match kind {
        BlockKind::Entry => "entry",
        BlockKind::LoopBody => "start_of_loop",
        BlockKind::LoopExit => "end_of_loop",
    }
}

/// The name that the value of a request is given in the module. A request
/// that builds no value has the empty name.
pub open spec fn value_name_of(request: Request) -> &'static str {
    match request {
        Request::Allocate { .. } => "tape",
        Request::Slot => "offset",
        Request::LoadOffset => "position",
        Request::TapeBase => "base",
        Request::Add { .. } => "sum",
        Request::Sub { .. } => "difference",
        Request::Rem { .. } => "reduced",
        Request::Cell { .. } => "cell",
        Request::Load { .. } => "value",
        Request::Widen { .. } => "widened",
        Request::Narrow { .. } => "narrowed",
        Request::Equal { .. } => "is_zero",
        Request::Get => "got",
        Request::Put { .. } => "put",
        _ => "",
    }
}

/// The name that the value of a request is given in the module.
pub fn value_name(request: Request) -> (name: &'static str)
    ensures
        name@ == value_name_of(request)@,
{
    match request {
        Request::Allocate { .. } => "tape",
        Request::Slot => "offset",
        Request::LoadOffset => "position",
        Request::TapeBase => "base",
        Request::Add { .. } => "sum",
        Request::Sub { .. } => "difference",
        Request::Rem { .. } => "reduced",
        Request::Cell { .. } => "cell",
        Request::Load { .. } => "value",
        Request::Widen { .. } => "widened",
        Request::Narrow { .. } => "narrowed",
        Request::Equal { .. } => "is_zero",
        Request::Get => "got",
        Request::Put { .. } => "put",
        _ => "",
    }
}

/// Lists the declarations of a module for the given mode.
pub fn declaration_listing(mode: OutputMode) -> (listing: Vec<Signature>)
    ensures
        listing@ == declarations(mode),
{
    let mut listing: Vec<Signature> = Vec::new();
    listing.push(Signature { routine: Routine::Output, takes_word: true, returns: Returns::Word });
    listing.push(Signature { routine: Routine::Input, takes_word: false, returns: Returns::Word });
    listing.push(
        Signature {
            routine: Routine::Main,
            takes_word: false,
            returns: match mode {
                OutputMode::Execute => Returns::Tape,
                OutputMode::Emit => Returns::Word,
            },
        },
    );
    assert(listing@ =~= declarations(mode));
    listing
}

/// Lists the requests at the entry of the function: the tape allocated and
/// zeroed, the pointer offset set to zero.
pub fn entry_listing() -> (listing: Vec<Request>)
    ensures
        listing@ == entry_requests(),
{
    let mut listing: Vec<Request> = Vec::new();
    listing.push(Request::Word(TAPE_SIZE as u32));
    let size: usize = listing.len() - 1;
    listing.push(Request::Allocate { count: size });
    listing.push(Request::Byte(0));
    let zero: usize = listing.len() - 1;
    listing.push(Request::ZeroFill { value: zero, count: size });
    listing.push(Request::Slot);
    listing.push(Request::Wide(0));
    let start: usize = listing.len() - 1;
    listing.push(Request::StoreOffset { value: start });
    assert(listing@ =~= entry_requests());
    listing
}

/// Everything that is asked of the backend for one function: the routines
/// to declare, the requests at the entry, and the requests of each block in
/// the order of the blocks.
#[derive(Debug, PartialEq, Eq)]
pub struct Emission {
    pub declarations: Vec<Signature>,
    pub entry: Vec<Request>,
    pub blocks: Vec<Vec<Request>>,
}

/// The mathematical content of an emission.
pub struct EmissionView {
    pub declarations: Seq<Signature>,
    pub entry: Seq<Request>,
    pub blocks: Seq<Seq<Request>>,
}

impl View for Emission {
    type V = EmissionView;

    open spec fn view(&self) -> EmissionView {
        EmissionView {
            declarations: self.declarations@,
            entry: self.entry@,
            blocks: Seq::new(self.blocks@.len(), |b: int| self.blocks@[b]@),
        }
    }
}

/// What is asked of the backend for a compiled function: its declarations
/// for the function's mode, the requests at the entry, and for each block
/// the requests of that block.
pub open spec fn emission(f: FunctionView) -> EmissionView {
    EmissionView {
        declarations: declarations(f.mode),
        entry: entry_requests(),
        blocks: Seq::new(f.blocks.len(), |b: int| block_requests(f.blocks[b], f.mode)),
    }
}

/// What a request builds.
#[derive(Clone, Copy, Debug, PartialEq, Eq, Structural)]
pub enum Kind {
    /// An integer value.
    Int,
    /// A pointer to a cell.
    Pointer,
    /// No value.
    Nothing,
}

/// The kind of value that a request builds.
pub open spec fn built_kind(request: Request) -> Kind {
    match request {
        Request::Byte(_) => Kind::Int,
        Request::Word(_) => Kind::Int,
        Request::Wide(_) => Kind::Int,
        Request::LoadOffset => Kind::Int,
        Request::TapeBase => Kind::Int,
        Request::Add { .. } => Kind::Int,
        Request::Sub { .. } => Kind::Int,
        Request::Rem { .. } => Kind::Int,
        Request::Load { .. } => Kind::Int,
        Request::Widen { .. } => Kind::Int,
        Request::Narrow { .. } => Kind::Int,
        Request::Equal { .. } => Kind::Int,
        Request::Get => Kind::Int,
        Request::Cell { .. } => Kind::Pointer,
        _ => Kind::Nothing,
    }
}

/// Whether the tape is allocated before request `upto` of a listing, given
/// whether it was before the listing.
pub open spec fn tape_ready(listing: Seq<Request>, upto: int, before: bool) -> bool
    decreases upto,
{
    if upto <= 0 {
        before
    } else {
        tape_ready(listing, upto - 1, before) || listing[upto - 1] is Allocate
    }
}

/// Whether the slot of the pointer offset is made before request `upto` of
/// a listing, given whether it was before the listing.
pub open spec fn slot_ready(listing: Seq<Request>, upto: int, before: bool) -> bool
    decreases upto,
{
    if upto <= 0 {
        before
    } else {
        slot_ready(listing, upto - 1, before) || listing[upto - 1] is Slot
    }
}

/// Whether request `k` comes before request `i` within a group of requests
/// that starts at position `at`, and builds a value of the given kind.
pub open spec fn names_within(group: Seq<Request>, at: nat, i: int, k: usize, kind: Kind) -> bool {
    at <= k < at + i && built_kind(group[k - at]) == kind
}

/// Whether request `i` of a group that starts at position `at` can be made
/// with the values of the group alone: every value it names is built before
/// it in the group and is of the kind it needs, a branch goes to blocks
/// that exist among `blocks`, and the tape and the slot are there where the
/// request needs them.
pub open spec fn can_be_made_within(
    group: Seq<Request>,
    at: nat,
    i: int,
    blocks: nat,
    tape: bool,
    slot: bool,
) -> bool {
    match group[i] {
        Request::LoadOffset => slot,
        Request::StoreOffset { value } => slot && names_within(group, at, i, value, Kind::Int),
        Request::TapeBase => tape,
        Request::Free => tape,
        Request::ReturnTape => tape,
        Request::Allocate { count } => names_within(group, at, i, count, Kind::Int),
        Request::ZeroFill { value, count } => tape && names_within(
            group,
            at,
            i,
            value,
            Kind::Int,
        ) && names_within(group, at, i, count, Kind::Int),
        Request::Add { lhs, rhs } => names_within(group, at, i, lhs, Kind::Int) && names_within(
            group,
            at,
            i,
            rhs,
            Kind::Int,
        ),
        Request::Sub { lhs, rhs } => names_within(group, at, i, lhs, Kind::Int) && names_within(
            group,
            at,
            i,
            rhs,
            Kind::Int,
        ),
        Request::Rem { lhs, rhs } => names_within(group, at, i, lhs, Kind::Int) && names_within(
            group,
            at,
            i,
            rhs,
            Kind::Int,
        ),
        Request::Equal { lhs, rhs } => names_within(group, at, i, lhs, Kind::Int)
            && names_within(group, at, i, rhs, Kind::Int),
        Request::Cell { address } => names_within(group, at, i, address, Kind::Int),
        Request::Load { cell } => names_within(group, at, i, cell, Kind::Pointer),
        Request::Store { cell, value } => names_within(group, at, i, cell, Kind::Pointer)
            && names_within(group, at, i, value, Kind::Int),
        Request::Widen { value } => names_within(group, at, i, value, Kind::Int),
        Request::Narrow { value } => names_within(group, at, i, value, Kind::Int),
        Request::Put { value } => names_within(group, at, i, value, Kind::Int),
        Request::Branch { test, exit, body } => names_within(group, at, i, test, Kind::Int)
            && exit < blocks && body < blocks,
        Request::ReturnStatus { value } => names_within(group, at, i, value, Kind::Int),
        _ => true,
    }
}

/// Whether request `i` of a whole listing can be made.
pub open spec fn can_be_made(
    listing: Seq<Request>,
    i: int,
    blocks: nat,
    tape: bool,
    slot: bool,
) -> bool {
    can_be_made_within(listing, 0, i, blocks, tape, slot)
}

/// Whether every request of a listing can be made, given whether the tape
/// and the slot of the offset are there before the listing.
pub open spec fn fits(listing: Seq<Request>, blocks: nat, tape: bool, slot: bool) -> bool {
    forall|i: int|
        0 <= i < listing.len() ==> can_be_made(
            listing,
            i,
            blocks,
            tape_ready(listing, i, tape),
            slot_ready(listing, i, slot),
        )
}

/// Whether a group of requests that starts at position `at` names only its
/// own values, with the tape and the slot there.
pub open spec fn closed(group: Seq<Request>, at: nat, blocks: nat) -> bool {
    forall|i: int| 0 <= i < group.len() ==> can_be_made_within(group, at, i, blocks, true, true)
}

/// What is there before a listing stays there.
pub proof fn lemma_ready_stays(listing: Seq<Request>, upto: int)
    ensures
        tape_ready(listing, upto, true),
        slot_ready(listing, upto, true),
    decreases upto,
{
    if upto > 0 {
        lemma_ready_stays(listing, upto - 1);
    }
}

/// Requests that can be made still can when a closed group follows them,
/// and so can those of the group.
proof fn lemma_fits_extends(before: Seq<Request>, group: Seq<Request>, blocks: nat)
    requires
        fits(before, blocks, true, true),
        closed(group, before.len(), blocks),
    ensures
        fits(before + group, blocks, true, true),
{
    let all = before + group;
    assert forall|i: int| 0 <= i < all.len() implies can_be_made(
        all,
        i,
        blocks,
        tape_ready(all, i, true),
        slot_ready(all, i, true),
    ) by {
        lemma_ready_stays(all, i);
        if i < before.len() {
            lemma_ready_stays(before, i);
            assert(can_be_made(before, i, blocks, true, true));
            assert(all[i] == before[i]);
            assert forall|k: usize, kind: Kind|
                names_within(before, 0, i, k, kind) implies names_within(all, 0, i, k, kind) by {
                assert(all[k as int] == before[k as int]);
            }
        } else {
            let j = i - before.len();
            assert(can_be_made_within(group, before.len(), j, blocks, true, true));
            assert(all[i] == group[j]);
            assert forall|k: usize, kind: Kind|
                names_within(group, before.len(), j, k, kind) implies names_within(
                all,
                0,
                i,
                k,
                kind,
            ) by {
                assert(all[k as int] == group[k - before.len()]);
            }
        }
    }
}

/// The requests of a cell edit name only their own values.
proof fn lemma_cell_edit_closed(at: nat, n: u8, add: bool, blocks: nat)
    requires
        at + cell_edit_requests(at, n, add).len() <= usize::MAX,
    ensures
        closed(cell_edit_requests(at, n, add), at, blocks),
{
    let group = cell_edit_requests(at, n, add);
    assert(group.len() == 8);
}

/// The requests of a shift name only their own values.
proof fn lemma_shift_closed(at: nat, n: u64, right: bool, blocks: nat)
    requires
        at + shift_requests(at, n, right).len() <= usize::MAX,
    ensures
        closed(shift_requests(at, n, right), at, blocks),
{
    let group = shift_requests(at, n, right);
    assert(group.len() == if right { 6nat } else { 7nat });
}

/// The requests of an output name only their own values.
proof fn lemma_output_closed(at: nat, blocks: nat)
    requires
        at + output_requests(at).len() <= usize::MAX,
    ensures
        closed(output_requests(at), at, blocks),
{
    let group = output_requests(at);
    assert(group.len() == 7);
}

/// The requests of an input name only their own values.
proof fn lemma_input_closed(at: nat, blocks: nat)
    requires
        at + input_requests(at).len() <= usize::MAX,
    ensures
        closed(input_requests(at), at, blocks),
{
    let group = input_requests(at);
    assert(group.len() == 7);
}

/// The requests of a terminator name only their own values, and its branch
/// goes to blocks that exist if the terminator's does.
proof fn lemma_terminator_closed(at: nat, terminator: Terminator, mode: OutputMode, blocks: nat)
    requires
        at + terminator_requests(at, terminator, mode).len() <= usize::MAX,
        terminator matches Terminator::Branch { exit, body } ==> exit < blocks && body < blocks,
    ensures
        closed(terminator_requests(at, terminator, mode), at, blocks),
{
    let group = terminator_requests(at, terminator, mode);
    assert(group.len() <= 8);
}

/// The requests of an operation name only their own values.
proof fn lemma_op_closed(at: nat, op: Op, blocks: nat)
    requires
        at + op_requests(at, op).len() <= usize::MAX,
    ensures
        closed(op_requests(at, op), at, blocks),
{
    match op {
        Op::AddCell(n) => lemma_cell_edit_closed(at, n, true, blocks),
        Op::SubCell(n) => lemma_cell_edit_closed(at, n, false, blocks),
        Op::ShiftRight(n) => lemma_shift_closed(at, n, true, blocks),
        Op::ShiftLeft(n) => lemma_shift_closed(at, n, false, blocks),
        Op::Output => lemma_output_closed(at, blocks),
        Op::Input => lemma_input_closed(at, blocks),
    }
}

/// An operation makes at least six requests and at most eight.
proof fn lemma_op_length(at: nat, op: Op)
    ensures
        6 <= op_requests(at, op).len() <= 8,
{
}

/// A terminator makes at least one request and at most eight.
proof fn lemma_terminator_length(at: nat, terminator: Terminator, mode: OutputMode)
    ensures
        1 <= terminator_requests(at, terminator, mode).len() <= 8,
{
}

/// The requests of a row of operations can be made, as long as the machine
/// can number them.
proof fn lemma_ops_fit(ops: Seq<Op>, blocks: nat)
    requires
        ops_requests(ops).len() <= usize::MAX,
    ensures
        fits(ops_requests(ops), blocks, true, true),
    decreases ops.len(),
{
    if ops.len() > 0 {
        let before = ops_requests(ops.drop_last());
        lemma_op_length(before.len(), ops.last());
        lemma_ops_fit(ops.drop_last(), blocks);
        lemma_op_closed(before.len(), ops.last(), blocks);
        lemma_fits_extends(before, op_requests(before.len(), ops.last()), blocks);
    }
}

/// Every request of a block can be made once the tape and the slot are
/// there: each names only values that are built before it, of the kind it
/// needs, and the branch goes to blocks that exist. The bound is that of a
/// machine that can number the requests.
pub proof fn lemma_block_requests_fit(block: BlockView, mode: OutputMode, blocks: nat)
    requires
        block_requests(block, mode).len() <= usize::MAX,
        block.terminator matches Terminator::Branch { exit, body } ==> exit < blocks && body
            < blocks,
    ensures
        fits(block_requests(block, mode), blocks, true, true),
{
    let body = ops_requests(block.ops);
    lemma_terminator_length(body.len(), block.terminator, mode);
    lemma_ops_fit(block.ops, blocks);
    lemma_terminator_closed(body.len(), block.terminator, mode, blocks);
    lemma_fits_extends(body, terminator_requests(body.len(), block.terminator, mode), blocks);
}

/// Every request at the entry can be made with nothing there before, and
/// behind them the tape and the slot are there.
pub proof fn lemma_entry_requests_fit(blocks: nat)
    ensures
        fits(entry_requests(), blocks, false, false),
        tape_ready(entry_requests(), entry_requests().len() as int, false),
        slot_ready(entry_requests(), entry_requests().len() as int, false),
{
    let entry = entry_requests();
    reveal_with_fuel(tape_ready, 8);
    reveal_with_fuel(slot_ready, 8);
    assert(entry.len() == 7);
    assert forall|i: int| 0 <= i < entry.len() implies can_be_made(
        entry,
        i,
        blocks,
        tape_ready(entry, i, false),
        slot_ready(entry, i, false),
    ) by {
        assert(i == 0 || i == 1 || i == 2 || i == 3 || i == 4 || i == 5 || i == 6);
    }
}

} // verus!
