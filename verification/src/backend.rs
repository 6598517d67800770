use vstd::prelude::*;
use inkwell::basic_block::BasicBlock;
use inkwell::builder::Builder;
use inkwell::context::Context;
use inkwell::execution_engine::ExecutionEngine;
use inkwell::module::Module;
use inkwell::targets::TargetMachine;
use inkwell::types::IntType;
use inkwell::values::{FunctionValue, IntValue};
use crate::codegen::{bracket_error, lower, lowered};
use crate::effect::wide_enough;
use crate::error::CompileError;
use crate::function::{
    block_views, well_formed, Block, CompiledFunction, FunctionView, Op, OutputMode,
    Terminator,
};
use crate::listing::{
    block_requests, branch_requests, built_kind, can_be_made, cell_address_requests,
    block_name, cell_read_requests, declaration_listing, emission, entry_listing, fits,
    lemma_block_requests_fit, Emission,
    lemma_entry_requests_fit, lemma_ready_stays, op_requests, ops_requests, return_requests,
    routine_name, shift_requests, slot_ready, tape_ready, value_name, Kind, Request, Returns,
    Signature,
};
use crate::llvm::{
    add_function, append_basic_block, build_alloca, build_array_malloc, build_call,
    build_conditional_branch, build_free, build_int_add, build_int_equal, build_int_sub,
    build_int_to_ptr, build_int_truncate, build_int_unsigned_rem, build_int_z_extend,
    build_load, build_memset, build_ptr_to_int, build_return_int, build_return_pointer,
    build_store, const_int, create_builder, create_jit_execution_engine, create_module,
    create_target_machine, default_triple, engine_target_data, i32_type, i8_type,
    initialize_all_targets, int_bit_width, machine_target_data, ptr_sized_int_type,
    int_fn_type, int_ptr_type, pointer_fn_type, position_at_end, target_from_triple, IntPointer, IntPointerType,
};
use crate::scanner::{scan, scanned};
use crate::tape::{shift_amount, TAPE_SIZE};

verus! {

/// Turns what the backend answered into the library's own result: a value
/// is passed on, any failure becomes `BackendAllocationFailure`.
pub fn backend_result<T, E>(answer: Result<T, E>) -> (r: Result<T, CompileError>)
    ensures
        match answer {
            Ok(value) => r == Ok::<T, CompileError>(value),
            Err(_) => r == Err::<T, CompileError>(CompileError::BackendAllocationFailure),
        },
{
    match answer {
        Ok(value) => Ok(value),
        Err(_) => Err(CompileError::BackendAllocationFailure),
    }
}

/// Like `backend_result`, for a call that may also build a value of the
/// wrong kind: that counts as a failure of the backend too.
pub fn backend_value<T, E>(answer: Result<Option<T>, E>) -> (r: Result<T, CompileError>)
    ensures
        match answer {
            Ok(Some(value)) => r == Ok::<T, CompileError>(value),
            _ => r == Err::<T, CompileError>(CompileError::BackendAllocationFailure),
        },
{
    match answer {
        Ok(Some(value)) => Ok(value),
        _ => Err(CompileError::BackendAllocationFailure),
    }
}

/// Turns what the writing of the finished function answered into the
/// library's own result: a value is passed on, any failure becomes
/// `BackendWriteFailure`.
pub fn write_result<T, E>(answer: Result<T, E>) -> (r: Result<T, CompileError>)
    ensures
        match answer {
            Ok(value) => r == Ok::<T, CompileError>(value),
            Err(_) => r == Err::<T, CompileError>(CompileError::BackendWriteFailure),
        },
{
    match answer {
        Ok(value) => Ok(value),
        Err(_) => Err(CompileError::BackendWriteFailure),
    }
}

/// Decides whether a function can be built for a machine whose pointers
/// have `bits` bits. The pointer offset is kept in that width, and twice
/// the tape's size must fit it. With 32 bits and more it does, whatever the
/// width; a narrower machine is refused as a failure of the backend.
pub fn pointer_width_result(bits: u32) -> (r: Result<(), CompileError>)
    ensures
        bits >= 32 ==> r == Ok::<(), CompileError>(()),
        bits < 32 ==> r == Err::<(), CompileError>(CompileError::BackendAllocationFailure),
        bits >= 32 ==> wide_enough(0x1_0000_0000),
        forall|width: int| 0x1_0000_0000 <= width ==> #[trigger] wide_enough(width),
{
    if bits < 32 {
        Err(CompileError::BackendAllocationFailure)
    } else {
        Ok(())
    }
}

/// Whether a result is a success or the failure of the backend.
pub open spec fn backend_decides<T>(r: Result<T, CompileError>) -> bool {
    match r {
        Ok(_) => true,
        Err(e) => e == CompileError::BackendAllocationFailure,
    }
}

/// What takes the finished function: an engine that runs it in this
/// process, or a target machine that writes it out.
enum Taker<'ctx> {
    Engine(ExecutionEngine<'ctx>),
    Machine(TargetMachine),
}

/// A compiler for one program: an LLVM module to hold the function, the
/// builder that fills it, and the engine or target machine that will take
/// the finished function. All of them are made by the compiler itself and
/// can only be read from outside.
pub struct CodeGen<'ctx> {
    context: &'ctx Context,
    module: Module<'ctx>,
    builder: Builder<'ctx>,
    taker: Taker<'ctx>,
}

/// What every request is made with: the types and the host's routines.
struct Kit<'ctx> {
    byte: IntType<'ctx>,
    word: IntType<'ctx>,
    wide: IntType<'ctx>,
    cell_pointer: IntPointerType<'ctx>,
    putchar: FunctionValue<'ctx>,
    getchar: FunctionValue<'ctx>,
}

/// What the requests at the entry put in place for all that follow: the
/// tape and the slot that holds the pointer offset.
#[derive(Clone, Copy)]
struct Placed<'ctx> {
    tape: Option<IntPointer<'ctx>>,
    offset: Option<IntPointer<'ctx>>,
}

impl<'ctx> CodeGen<'ctx> {
    /// The mode that the compiler was made for: to run its function, where
    /// it holds an execution engine, or to write it out, where it holds a
    /// target machine.
    pub closed spec fn made_for(&self) -> OutputMode {
        match self.taker {
            Taker::Engine(_) => OutputMode::Execute,
            Taker::Machine(_) => OutputMode::Emit,
        }
    }

    /// The module that holds the function.
    pub fn module(&self) -> (module: &Module<'ctx>) {
        &self.module
    }

    /// The engine that runs the function, in a compiler that was made for
    /// that.
    pub fn execution_engine(&self) -> (engine: Option<&ExecutionEngine<'ctx>>)
        ensures
            engine.is_some() == (self.made_for() == OutputMode::Execute),
    {
        match &self.taker {
            Taker::Engine(engine) => Some(engine),
            Taker::Machine(_) => None,
        }
    }

    /// The target machine that writes the function out, in a compiler that
    /// was made for that.
    pub fn target_machine(&self) -> (machine: Option<&TargetMachine>)
        ensures
            machine.is_some() == (self.made_for() == OutputMode::Emit),
    {
        match &self.taker {
            Taker::Engine(_) => None,
            Taker::Machine(machine) => Some(machine),
        }
    }

    /// A compiler whose function will run in this process.
    pub fn new_jit(context: &'ctx Context) -> (r: Result<CodeGen<'ctx>, CompileError>)
        ensures
            match r {
                Ok(codegen) => codegen.made_for() == OutputMode::Execute,
                Err(e) => e == CompileError::BackendAllocationFailure,
            },
    {
        let module = create_module(context, "bf_jit");
        let engine = match backend_result(create_jit_execution_engine(&module)) {
            Ok(engine) => engine,
            Err(e) => {
                return Err(e);
            },
        };
        Ok(
            CodeGen {
                context,
                module,
                builder: create_builder(context),
                taker: Taker::Engine(engine),
            },
        )
    }

    /// A compiler whose function will be written out as an object for the
    /// machine this process runs on.
    pub fn new_comp(context: &'ctx Context) -> (r: Result<CodeGen<'ctx>, CompileError>)
        ensures
            match r {
                Ok(codegen) => codegen.made_for() == OutputMode::Emit,
                Err(e) => e == CompileError::BackendAllocationFailure,
            },
    {
        let module = create_module(context, "bf_comp");
        initialize_all_targets();
        let triple = default_triple();
        let target = match backend_result(target_from_triple(&triple)) {
            Ok(target) => target,
            Err(e) => {
                return Err(e);
            },
        };
        let machine = match create_target_machine(&target, &triple, "generic", "") {
            Some(machine) => machine,
            None => {
                return Err(CompileError::BackendAllocationFailure);
            },
        };
        Ok(
            CodeGen {
                context,
                module,
                builder: create_builder(context),
                taker: Taker::Machine(machine),
            },
        )
    }

    /// A compiler for the given mode: with an execution engine to run the
    /// function, or with a target machine to write it out.
    pub fn new(context: &'ctx Context, mode: OutputMode) -> (r: Result<
        CodeGen<'ctx>,
        CompileError,
    >)
        ensures
            match r {
                Ok(codegen) => codegen.made_for() == mode,
                Err(e) => e == CompileError::BackendAllocationFailure,
            },
    {
        match mode {
            OutputMode::Execute => Self::new_jit(context),
            OutputMode::Emit => Self::new_comp(context),
        }
    }

    /// Compiles a program text into the module, as the function `main`.
    ///
    /// The text is scanned and lowered first, so a bracket error is found
    /// before anything is built. Then the function is built block by block.
    /// On success the result is the function that was built. A compiler
    /// takes one program: a second one would need a module of its own.
    pub fn gen_bf(&self, code_to_comp: &str, mode: OutputMode) -> (r: Result<
        CompiledFunction,
        CompileError,
    >)
        ensures
            match bracket_error(scanned(code_to_comp@)) {
                Some(e) => r == Err::<CompiledFunction, CompileError>(e),
                None => match r {
                    Ok(function) => lowered(scanned(code_to_comp@), mode) == Ok::<
                        FunctionView,
                        CompileError,
                    >(function@),
                    Err(e) => e == CompileError::BackendAllocationFailure,
                },
            },
    {
        let stream = scan(code_to_comp);
        let function = match lower(&stream, mode) {
            Ok(function) => function,
            Err(e) => {
                return Err(e);
            },
        };
        match self.emit(&function) {
            Ok(_) => Ok(function),
            Err(e) => Err(e),
        }
    }

    /// Builds a compiled function in the module, as the function `main`
    /// beside declarations of the host's `putchar` and `getchar`.
    ///
    /// The routines are declared as `declaration_listing` lists them. Then
    /// the requests of `entry_listing` are made of the builder in the entry
    /// block, and behind them the requests of each block as `block_listing`
    /// lists them, one by one. Whether the builder carries them out is the
    /// backend's to decide. Where it does, the result is the record of all
    /// that was asked of it.
    pub fn emit(&self, function: &CompiledFunction) -> (r: Result<Emission, CompileError>)
        ensures
            match r {
                Ok(asked) => asked@ == emission(function@),
                Err(e) => e == CompileError::BackendAllocationFailure,
            },
    {
        let blocks = function.blocks();
        let byte = i8_type(self.context);
        let word = i32_type(self.context);
        // The pointer offset is as wide as a pointer of the machine that the
        // function is for. A machine with pointers too narrow to hold the
        // tape twice over is not one that the function can be built for.
        let wide = match &self.taker {
            Taker::Engine(engine) => ptr_sized_int_type(self.context, engine_target_data(engine)),
            Taker::Machine(machine) => {
                let data = machine_target_data(machine);
                ptr_sized_int_type(self.context, &data)
            },
        };
        match pointer_width_result(int_bit_width(wide)) {
            Ok(()) => {},
            Err(e) => {
                return Err(e);
            },
        }
        let cell_pointer = int_ptr_type(byte);
        let signatures = declaration_listing(function.mode());
        let putchar = self.declare(word, cell_pointer, signatures[0]);
        let getchar = self.declare(word, cell_pointer, signatures[1]);
        let main = self.declare(word, cell_pointer, signatures[2]);
        let kit = Kit { byte, word, wide, cell_pointer, putchar, getchar };

        let mut labels: Vec<BasicBlock<'ctx>> = Vec::new();
        let mut i: usize = 0;
        while i < blocks.len()
            invariant
                i <= blocks.len(),
                labels.len() == i,
            decreases blocks.len() - i,
        {
            labels.push(append_basic_block(self.context, main, block_name(blocks[i].kind)));
            i = i + 1;
        }

        position_at_end(&self.builder, labels[0]);
        let entry = entry_listing();
        proof {
            lemma_entry_requests_fit(labels.len() as nat);
        }
        let mut placed = match self.perform(
            &kit,
            &labels,
            &entry,
            Placed { tape: None, offset: None },
        ) {
            Ok(placed) => placed,
            Err(e) => {
                return Err(e);
            },
        };

        let mut asked: Vec<Vec<Request>> = Vec::new();
        let mut b: usize = 0;
        while b < blocks.len()
            invariant
                b <= blocks.len(),
                labels.len() == blocks.len(),
                block_views(blocks@) == function@.blocks,
                well_formed(function@),
                placed.tape.is_some(),
                placed.offset.is_some(),
                asked@.len() == b,
                forall|i: int|
                    0 <= i < b ==> (#[trigger] asked@[i])@ == block_requests(
                        function@.blocks[i],
                        function@.mode,
                    ),
            decreases blocks.len() - b,
        {
            position_at_end(&self.builder, labels[b]);
            let listing = Self::block_listing(&blocks[b], function.mode());
            proof {
                assert(blocks[b as int]@ == function@.blocks[b as int]);
                assert(listing@.len() == listing.len());
                lemma_block_requests_fit(blocks[b as int]@, function@.mode, labels.len() as nat);
                lemma_ready_stays(listing@, listing@.len() as int);
            }
            placed = match self.perform(&kit, &labels, &listing, placed) {
                Ok(placed) => placed,
                Err(e) => {
                    return Err(e);
                },
            };
            asked.push(listing);
            b = b + 1;
        }
        let asked = Emission { declarations: signatures, entry, blocks: asked };
        assert(asked@.blocks =~= emission(function@).blocks);
        Ok(asked)
    }

    /// Declares one routine in the module, under its name and with the
    /// parameters and the result that its signature says.
    fn declare(
        &self,
        word: IntType<'ctx>,
        cell_pointer: IntPointerType<'ctx>,
        signature: Signature,
    ) -> (declared: FunctionValue<'ctx>) {
        let mut takes: Vec<IntType<'ctx>> = Vec::new();
        if signature.takes_word {
            takes.push(word);
        }
        let routine_type = match signature.returns {
            Returns::Word => int_fn_type(word, &takes),
            Returns::Tape => pointer_fn_type(cell_pointer),
        };
        add_function(&self.module, routine_name(signature.routine), routine_type)
    }

    /// Lists everything that is asked of the builder for one block: the
    /// requests of its operations in order, then those of its terminator.
    pub fn block_listing(block: &Block, mode: OutputMode) -> (listing: Vec<Request>)
        ensures
            listing@ == block_requests(block@, mode),
    {
        let mut listing: Vec<Request> = Vec::new();
        let mut k: usize = 0;
        while k < block.ops.len()
            invariant
                k <= block.ops.len(),
                listing@ == ops_requests(block.ops@.take(k as int)),
            decreases block.ops.len() - k,
        {
            proof {
                assert(block.ops@.take(k + 1).drop_last() == block.ops@.take(k as int));
            }
            Self::emit_op(&mut listing, block.ops[k]);
            k = k + 1;
        }
        proof {
            assert(block.ops@.take(k as int) == block.ops@);
        }
        match block.terminator {
            Terminator::Branch { exit, body } => Self::emit_branch(&mut listing, exit, body),
            Terminator::Return => Self::emit_return(&mut listing, mode),
        }
        listing
    }

    /// Lists the requests that make the address of the current cell: the
    /// tape's base plus the pointer offset, read afresh from its slot. The
    /// result is the number of the request whose value is the pointer.
    fn emit_cell_address(listing: &mut Vec<Request>) -> (cell: usize)
        ensures
            final(listing)@ == old(listing)@ + cell_address_requests(old(listing)@.len()),
            cell == old(listing)@.len() + 3,
    {
        listing.push(Request::LoadOffset);
        let offset: usize = listing.len() - 1;
        listing.push(Request::TapeBase);
        let base: usize = listing.len() - 1;
        listing.push(Request::Add { lhs: base, rhs: offset });
        let address: usize = listing.len() - 1;
        listing.push(Request::Cell { address });
        assert(listing@ =~= old(listing)@ + cell_address_requests(old(listing)@.len()));
        listing.len() - 1
    }

    /// Lists the requests that read the current cell. The result is the
    /// number of the request whose value is the cell's address, and that of
    /// the request whose value is the byte read.
    fn emit_cell_read(listing: &mut Vec<Request>) -> (read: (usize, usize))
        ensures
            final(listing)@ == old(listing)@ + cell_read_requests(old(listing)@.len()),
            read.0 == old(listing)@.len() + 3,
            read.1 == old(listing)@.len() + 4,
    {
        let cell = Self::emit_cell_address(listing);
        listing.push(Request::Load { cell });
        assert(listing@ =~= old(listing)@ + cell_read_requests(old(listing)@.len()));
        (cell, listing.len() - 1)
    }

    /// Lists the requests that move the pointer by a run of `n` shifts. The
    /// offset is read, moved by the run's length reduced to the tape,
    /// reduced by an unsigned remainder, and stored back.
    fn emit_shift(listing: &mut Vec<Request>, n: u64, right: bool)
        ensures
            final(listing)@ == old(listing)@ + shift_requests(old(listing)@.len(), n, right),
    {
        listing.push(Request::Wide(TAPE_SIZE));
        let size: usize = listing.len() - 1;
        listing.push(Request::Wide(shift_amount(n)));
        let amount: usize = listing.len() - 1;
        listing.push(Request::LoadOffset);
        let offset: usize = listing.len() - 1;
        if right {
            listing.push(Request::Add { lhs: offset, rhs: amount });
        } else {
            listing.push(Request::Add { lhs: offset, rhs: size });
            let lifted: usize = listing.len() - 1;
            listing.push(Request::Sub { lhs: lifted, rhs: amount });
        }
        let moved: usize = listing.len() - 1;
        listing.push(Request::Rem { lhs: moved, rhs: size });
        let reduced: usize = listing.len() - 1;
        listing.push(Request::StoreOffset { value: reduced });
        assert(listing@ =~= old(listing)@ + shift_requests(old(listing)@.len(), n, right));
    }

    /// Lists the requests of one operation at the end of the listing.
    fn emit_op(listing: &mut Vec<Request>, op: Op)
        ensures
            final(listing)@ == old(listing)@ + op_requests(old(listing)@.len(), op),
    {
        match op {
            Op::AddCell(n) => {
                let (cell, value) = Self::emit_cell_read(listing);
                listing.push(Request::Byte(n));
                let count: usize = listing.len() - 1;
                listing.push(Request::Add { lhs: value, rhs: count });
                let sum: usize = listing.len() - 1;
                listing.push(Request::Store { cell, value: sum });
            },
            Op::SubCell(n) => {
                let (cell, value) = Self::emit_cell_read(listing);
                listing.push(Request::Byte(n));
                let count: usize = listing.len() - 1;
                listing.push(Request::Sub { lhs: value, rhs: count });
                let difference: usize = listing.len() - 1;
                listing.push(Request::Store { cell, value: difference });
            },
            Op::ShiftRight(n) => {
                Self::emit_shift(listing, n, true);
            },
            Op::ShiftLeft(n) => {
                Self::emit_shift(listing, n, false);
            },
            Op::Output => {
                let (_, value) = Self::emit_cell_read(listing);
                listing.push(Request::Widen { value });
                let widened: usize = listing.len() - 1;
                listing.push(Request::Put { value: widened });
            },
            Op::Input => {
                listing.push(Request::Get);
                let got: usize = listing.len() - 1;
                listing.push(Request::Narrow { value: got });
                let narrowed: usize = listing.len() - 1;
                let cell = Self::emit_cell_address(listing);
                listing.push(Request::Store { cell, value: narrowed });
            },
        }
        assert(listing@ =~= old(listing)@ + op_requests(old(listing)@.len(), op));
    }

    /// Lists the requests of the test that ends a block at either end of a
    /// loop: the current cell is read again, zero leaves for block `exit`,
    /// anything else goes to block `body`.
    fn emit_branch(listing: &mut Vec<Request>, exit: usize, body: usize)
        ensures
            final(listing)@ == old(listing)@ + branch_requests(old(listing)@.len(), exit, body),
    {
        let (_, value) = Self::emit_cell_read(listing);
        listing.push(Request::Byte(0));
        let zero: usize = listing.len() - 1;
        listing.push(Request::Equal { lhs: value, rhs: zero });
        let test: usize = listing.len() - 1;
        listing.push(Request::Branch { test, exit, body });
        assert(listing@ =~= old(listing)@ + branch_requests(old(listing)@.len(), exit, body));
    }

    /// Lists the requests of the epilogue. A function that runs in this
    /// process returns its tape. One that goes to an object file frees the
    /// tape and returns the status zero.
    fn emit_return(listing: &mut Vec<Request>, mode: OutputMode)
        ensures
            final(listing)@ == old(listing)@ + return_requests(old(listing)@.len(), mode),
    {
        match mode {
            OutputMode::Execute => {
                listing.push(Request::ReturnTape);
            },
            OutputMode::Emit => {
                listing.push(Request::Free);
                listing.push(Request::Word(0));
                let status: usize = listing.len() - 1;
                listing.push(Request::ReturnStatus { value: status });
            },
        }
        assert(listing@ =~= old(listing)@ + return_requests(old(listing)@.len(), mode));
    }

    /// Makes the requests of a listing of the builder, in order, and keeps
    /// the value that each one builds for the requests that name it. The
    /// result is what is in place behind the listing.
    fn perform(
        &self,
        kit: &Kit<'ctx>,
        labels: &Vec<BasicBlock<'ctx>>,
        listing: &Vec<Request>,
        placed: Placed<'ctx>,
    ) -> (r: Result<Placed<'ctx>, CompileError>)
        requires
            fits(listing@, labels.len() as nat, placed.tape.is_some(), placed.offset.is_some()),
        ensures
            backend_decides(r),
            r matches Ok(after) ==> after.tape.is_some() == tape_ready(
                listing@,
                listing@.len() as int,
                placed.tape.is_some(),
            ) && after.offset.is_some() == slot_ready(
                listing@,
                listing@.len() as int,
                placed.offset.is_some(),
            ),
    {
        let mut values: Vec<Built<'ctx>> = Vec::new();
        let mut now = placed;
        let mut k: usize = 0;
        while k < listing.len()
            invariant
                k <= listing.len(),
                fits(listing@, labels.len() as nat, placed.tape.is_some(), placed.offset.is_some()),
                values.len() == k,
                forall|i: int| 0 <= i < k ==> (#[trigger] values[i]).kind() == built_kind(listing[i]),
                now.tape.is_some() == tape_ready(listing@, k as int, placed.tape.is_some()),
                now.offset.is_some() == slot_ready(listing@, k as int, placed.offset.is_some()),
            decreases listing.len() - k,
        {
            assert(can_be_made(
                listing@,
                k as int,
                labels.len() as nat,
                tape_ready(listing@, k as int, placed.tape.is_some()),
                slot_ready(listing@, k as int, placed.offset.is_some()),
            ));
            match self.perform_one(kit, labels, &values, listing, now) {
                Ok((value, after)) => {
                    values.push(value);
                    now = after;
                },
                Err(e) => {
                    return Err(e);
                },
            }
            k = k + 1;
        }
        Ok(now)
    }

    /// Makes the next request of a listing of the builder: one call for each
    /// kind of request, with the values that the request names. The value
    /// it builds is of the kind that the request stands for, and the tape
    /// and the slot are in place behind it if they were before or the
    /// request has made them.
    fn perform_one(
        &self,
        kit: &Kit<'ctx>,
        labels: &Vec<BasicBlock<'ctx>>,
        values: &Vec<Built<'ctx>>,
        listing: &Vec<Request>,
        placed: Placed<'ctx>,
    ) -> (r: Result<(Built<'ctx>, Placed<'ctx>), CompileError>)
        requires
            values.len() < listing.len(),
            can_be_made(
                listing@,
                values.len() as int,
                labels.len() as nat,
                placed.tape.is_some(),
                placed.offset.is_some(),
            ),
            forall|i: int|
                0 <= i < values.len() ==> (#[trigger] values[i]).kind() == built_kind(listing[i]),
        ensures
            backend_decides(r),
            r matches Ok((value, after)) ==> value.kind() == built_kind(
                listing[values.len() as int],
            ) && after.tape.is_some() == (placed.tape.is_some() || listing[values.len() as int]
                is Allocate) && after.offset.is_some() == (placed.offset.is_some()
                || listing[values.len() as int] is Slot),
    {
        let builder = &self.builder;
        let request = listing[values.len()];
        let name = value_name(request);
        match request {
            Request::Byte(n) => kept(placed, built_int(Ok(const_int(kit.byte, n as u64)))),
            Request::Word(n) => kept(placed, built_int(Ok(const_int(kit.word, n as u64)))),
            Request::Wide(n) => kept(placed, built_int(Ok(const_int(kit.wide, n)))),
            Request::Allocate { count } => match backend_result(
                build_array_malloc(builder, kit.byte, int_at(values, count), name),
            ) {
                Ok(tape) => Ok(
                    (
                        Built { int: None, pointer: None },
                        Placed { tape: Some(tape), offset: placed.offset },
                    ),
                ),
                Err(e) => Err(e),
            },
            Request::ZeroFill { value, count } => kept(
                placed,
                built_nothing(
                    backend_result(
                        build_memset(
                            builder,
                            placed.tape.unwrap(),
                            1,
                            int_at(values, value),
                            int_at(values, count),
                        ),
                    ),
                ),
            ),
            Request::Slot => match backend_result(build_alloca(builder, kit.wide, name)) {
                Ok(offset) => Ok(
                    (
                        Built { int: None, pointer: None },
                        Placed { tape: placed.tape, offset: Some(offset) },
                    ),
                ),
                Err(e) => Err(e),
            },
            Request::LoadOffset => kept(
                placed,
                built_int(backend_value(build_load(builder, placed.offset.unwrap(), name))),
            ),
            Request::StoreOffset { value } => kept(
                placed,
                built_nothing(
                    backend_result(
                        build_store(builder, placed.offset.unwrap(), int_at(values, value)),
                    ),
                ),
            ),
            Request::TapeBase => kept(
                placed,
                built_int(
                    backend_result(
                        build_ptr_to_int(builder, placed.tape.unwrap(), kit.wide, name),
                    ),
                ),
            ),
            Request::Add { lhs, rhs } => kept(
                placed,
                built_int(
                    backend_result(
                        build_int_add(builder, int_at(values, lhs), int_at(values, rhs), name),
                    ),
                ),
            ),
            Request::Sub { lhs, rhs } => kept(
                placed,
                built_int(
                    backend_result(
                        build_int_sub(
                            builder,
                            int_at(values, lhs),
                            int_at(values, rhs),
                            name,
                        ),
                    ),
                ),
            ),
            Request::Rem { lhs, rhs } => kept(
                placed,
                built_int(
                    backend_result(
                        build_int_unsigned_rem(
                            builder,
                            int_at(values, lhs),
                            int_at(values, rhs),
                            name,
                        ),
                    ),
                ),
            ),
            Request::Cell { address } => kept(
                placed,
                built_pointer(
                    backend_result(
                        build_int_to_ptr(
                            builder,
                            int_at(values, address),
                            kit.cell_pointer,
                            name,
                        ),
                    ),
                ),
            ),
            Request::Load { cell } => kept(
                placed,
                built_int(backend_value(build_load(builder, pointer_at(values, cell), name))),
            ),
            Request::Store { cell, value } => kept(
                placed,
                built_nothing(
                    backend_result(
                        build_store(builder, pointer_at(values, cell), int_at(values, value)),
                    ),
                ),
            ),
            Request::Widen { value } => kept(
                placed,
                built_int(
                    backend_result(
                        build_int_z_extend(builder, int_at(values, value), kit.word, name),
                    ),
                ),
            ),
            Request::Narrow { value } => kept(
                placed,
                built_int(
                    backend_result(
                        build_int_truncate(builder, int_at(values, value), kit.byte, name),
                    ),
                ),
            ),
            Request::Equal { lhs, rhs } => kept(
                placed,
                built_int(
                    backend_result(
                        build_int_equal(
                            builder,
                            int_at(values, lhs),
                            int_at(values, rhs),
                            name,
                        ),
                    ),
                ),
            ),
            Request::Get => {
                let args: Vec<IntValue<'ctx>> = Vec::new();
                kept(placed, built_int(backend_value(build_call(builder, kit.getchar, &args, name))))
            },
            Request::Put { value } => {
                let mut args: Vec<IntValue<'ctx>> = Vec::new();
                args.push(int_at(values, value));
                kept(
                    placed,
                    built_nothing(backend_result(build_call(builder, kit.putchar, &args, name))),
                )
            },
            Request::Branch { test, exit, body } => kept(
                placed,
                built_nothing(
                    backend_result(
                        build_conditional_branch(
                            builder,
                            int_at(values, test),
                            labels[exit],
                            labels[body],
                        ),
                    ),
                ),
            ),
            Request::Free => kept(
                placed,
                built_nothing(backend_result(build_free(builder, placed.tape.unwrap()))),
            ),
            Request::ReturnTape => kept(
                placed,
                built_nothing(backend_result(build_return_pointer(builder, placed.tape.unwrap()))),
            ),
            Request::ReturnStatus { value } => kept(
                placed,
                built_nothing(backend_result(build_return_int(builder, int_at(values, value)))),
            ),
        }
    }
}

/// The outcome of a request that leaves in place what was in place.
fn kept<'ctx>(placed: Placed<'ctx>, answer: Result<Built<'ctx>, CompileError>) -> (r: Result<
    (Built<'ctx>, Placed<'ctx>),
    CompileError,
>)
    ensures
        match answer {
            Ok(value) => r == Ok::<(Built<'ctx>, Placed<'ctx>), CompileError>((value, placed)),
            Err(e) => r == Err::<(Built<'ctx>, Placed<'ctx>), CompileError>(e),
        },
{
    match answer {
        Ok(value) => Ok((value, placed)),
        Err(e) => Err(e),
    }
}

/// The value that a request has built, kept for the requests that name it:
/// an integer, a pointer to a cell, or neither.
#[derive(Clone, Copy)]
struct Built<'ctx> {
    int: Option<IntValue<'ctx>>,
    pointer: Option<IntPointer<'ctx>>,
}

impl<'ctx> Built<'ctx> {
    /// The kind of the value.
    spec fn kind(self) -> Kind {
        if self.int.is_some() {
            Kind::Int
        } else if self.pointer.is_some() {
            Kind::Pointer
        } else {
            Kind::Nothing
        }
    }
}

/// The integer that request `at` has built.
fn int_at<'ctx>(values: &Vec<Built<'ctx>>, at: usize) -> (value: IntValue<'ctx>)
    requires
        at < values.len(),
        values[at as int].kind() == Kind::Int,
    ensures
        values[at as int].int == Some(value),
{
    values[at].int.unwrap()
}

/// The pointer that request `at` has built.
fn pointer_at<'ctx>(values: &Vec<Built<'ctx>>, at: usize) -> (pointer: IntPointer<'ctx>)
    requires
        at < values.len(),
        values[at as int].kind() == Kind::Pointer,
    ensures
        values[at as int].pointer == Some(pointer),
{
    values[at].pointer.unwrap()
}

/// An integer that the backend built, as the value of its request.
fn built_int<'ctx>(answer: Result<IntValue<'ctx>, CompileError>) -> (r: Result<
    Built<'ctx>,
    CompileError,
>)
    ensures
        match answer {
            Ok(value) => r == Ok::<Built<'ctx>, CompileError>(
                Built { int: Some(value), pointer: None },
            ),
            Err(e) => r == Err::<Built<'ctx>, CompileError>(e),
        },
{
    match answer {
        Ok(value) => Ok(Built { int: Some(value), pointer: None }),
        Err(e) => Err(e),
    }
}

/// A pointer that the backend built, as the value of its request.
fn built_pointer<'ctx>(answer: Result<IntPointer<'ctx>, CompileError>) -> (r: Result<
    Built<'ctx>,
    CompileError,
>)
    ensures
        match answer {
            Ok(pointer) => r == Ok::<Built<'ctx>, CompileError>(
                Built { int: None, pointer: Some(pointer) },
            ),
            Err(e) => r == Err::<Built<'ctx>, CompileError>(e),
        },
{
    match answer {
        Ok(pointer) => Ok(Built { int: None, pointer: Some(pointer) }),
        Err(e) => Err(e),
    }
}

/// The outcome of a request that builds no value.
fn built_nothing<'ctx, T>(answer: Result<T, CompileError>) -> (r: Result<Built<'ctx>, CompileError>)
    ensures
        match answer {
            Ok(_) => r == Ok::<Built<'ctx>, CompileError>(Built { int: None, pointer: None }),
            Err(e) => r == Err::<Built<'ctx>, CompileError>(e),
        },
{
    match answer {
        Ok(_) => Ok(Built { int: None, pointer: None }),
        Err(e) => Err(e),
    }
}

/// Compiles a program text for the given mode, from nothing to the module
/// that holds its function. The text is scanned and lowered before the
/// backend is touched, so a bracket error is the answer wherever the text
/// has one.
pub fn compile<'ctx>(context: &'ctx Context, code_to_comp: &str, mode: OutputMode) -> (r: Result<
    (CodeGen<'ctx>, CompiledFunction),
    CompileError,
>)
    ensures
        match bracket_error(scanned(code_to_comp@)) {
            Some(e) => r == Err::<(CodeGen<'ctx>, CompiledFunction), CompileError>(e),
            None => match r {
                Ok((codegen, function)) => lowered(scanned(code_to_comp@), mode) == Ok::<
                    FunctionView,
                    CompileError,
                >(function@) && codegen.made_for() == mode,
                Err(e) => e == CompileError::BackendAllocationFailure,
            },
        },
{
    let stream = scan(code_to_comp);
    let function = match lower(&stream, mode) {
        Ok(function) => function,
        Err(e) => {
            return Err(e);
        },
    };
    let codegen = match CodeGen::new(context, mode) {
        Ok(codegen) => codegen,
        Err(e) => {
            return Err(e);
        },
    };
    match codegen.emit(&function) {
        Ok(_) => Ok((codegen, function)),
        Err(e) => Err(e),
    }
}

} // verus!
