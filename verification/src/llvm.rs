//! The calls into LLVM. Nothing in this file is proved: each function makes
//! one call and Verus takes its contract on trust.
//!
//! The values of LLVM are opaque to Verus, so no contract here says what a
//! call builds: each function only promises to return. The comments say
//! what the call does in LLVM.
//!
//! Two things hold by the way this file hands values out. An `IntType` is
//! always an integer type. A pointer type is only made by `int_ptr_type`,
//! from an integer type, and kept in `IntPointerType`; a pointer is only
//! made by the calls below, of such a type, and kept in `IntPointer`. The
//! fields of both are private to this file, so every load reads an integer
//! and every function that is called returns one.

use vstd::prelude::*;
use inkwell::basic_block::BasicBlock;
use inkwell::builder::{Builder, BuilderError};
use inkwell::context::Context;
use inkwell::execution_engine::ExecutionEngine;
use inkwell::module::Module;
use inkwell::support::LLVMString;
use inkwell::targets::{
    CodeModel, InitializationConfig, RelocMode, Target, TargetData, TargetMachine, TargetTriple,
};
use inkwell::types::{BasicMetadataTypeEnum, FunctionType, IntType, PointerType};
use inkwell::values::{
    BasicMetadataValueEnum, BasicValueEnum, FunctionValue, IntValue, PointerValue,
};
use inkwell::{AddressSpace, IntPredicate, OptimizationLevel};

verus! {

#[verifier::external_type_specification]
#[verifier::external_body]
pub struct ExContext(Context);

#[verifier::external_type_specification]
#[verifier::external_body]
pub struct ExModule<'ctx>(Module<'ctx>);

#[verifier::external_type_specification]
#[verifier::external_body]
pub struct ExBuilder<'ctx>(Builder<'ctx>);

#[verifier::external_type_specification]
#[verifier::external_body]
pub struct ExBuilderError(BuilderError);

#[verifier::external_type_specification]
#[verifier::external_body]
pub struct ExLLVMString(LLVMString);

#[verifier::external_type_specification]
#[verifier::external_body]
pub struct ExBasicBlock<'ctx>(BasicBlock<'ctx>);

#[verifier::external_type_specification]
#[verifier::external_body]
pub struct ExIntType<'ctx>(IntType<'ctx>);

#[verifier::external_type_specification]
#[verifier::external_body]
pub struct ExPointerType<'ctx>(PointerType<'ctx>);

#[verifier::external_type_specification]
#[verifier::external_body]
pub struct ExFunctionType<'ctx>(FunctionType<'ctx>);

#[verifier::external_type_specification]
#[verifier::external_body]
pub struct ExIntValue<'ctx>(IntValue<'ctx>);

#[verifier::external_type_specification]
#[verifier::external_body]
pub struct ExPointerValue<'ctx>(PointerValue<'ctx>);

#[verifier::external_type_specification]
#[verifier::external_body]
pub struct ExFunctionValue<'ctx>(FunctionValue<'ctx>);

#[verifier::external_type_specification]
#[verifier::external_body]
pub struct ExExecutionEngine<'ctx>(ExecutionEngine<'ctx>);

#[verifier::external_type_specification]
#[verifier::external_body]
pub struct ExTarget(Target);

#[verifier::external_type_specification]
#[verifier::external_body]
pub struct ExTargetTriple(TargetTriple);

#[verifier::external_type_specification]
#[verifier::external_body]
pub struct ExTargetMachine(TargetMachine);

#[verifier::external_type_specification]
#[verifier::external_body]
pub struct ExTargetData(TargetData);

/// The type of pointers to an integer. Only `int_ptr_type` makes one.
#[derive(Clone, Copy)]
pub struct IntPointerType<'ctx> {
    ty: PointerType<'ctx>,
}

/// A pointer to an integer. Only the calls of this file make one.
#[derive(Clone, Copy)]
pub struct IntPointer<'ctx> {
    pointer: PointerValue<'ctx>,
}

/// `Context::create_module`: a new, empty module with the given name.
#[verifier::external_body]
pub(crate) fn create_module<'ctx>(context: &'ctx Context, name: &str) -> (module: Module<'ctx>) {
    context.create_module(name)
}

/// `Context::create_builder`: a new builder, not yet placed in any block.
#[verifier::external_body]
pub(crate) fn create_builder<'ctx>(context: &'ctx Context) -> (builder: Builder<'ctx>) {
    context.create_builder()
}

/// `Context::i8_type`: the 8-bit integer type.
#[verifier::external_body]
pub(crate) fn i8_type<'ctx>(context: &'ctx Context) -> (ty: IntType<'ctx>) {
    context.i8_type()
}

/// `Context::i32_type`: the 32-bit integer type.
#[verifier::external_body]
pub(crate) fn i32_type<'ctx>(context: &'ctx Context) -> (ty: IntType<'ctx>) {
    context.i32_type()
}

/// `IntType::const_int`, without sign extension: the constant of type `ty`
/// that holds the low bits of `value`.
#[verifier::external_body]
pub(crate) fn const_int<'ctx>(ty: IntType<'ctx>, value: u64) -> (constant: IntValue<'ctx>) {
    ty.const_int(value, false)
}

/// `IntType::ptr_type`, in the default address space: the type of pointers
/// to `ty`.
#[verifier::external_body]
pub(crate) fn int_ptr_type<'ctx>(ty: IntType<'ctx>) -> (pointer: IntPointerType<'ctx>) {
    #[allow(deprecated)]
    IntPointerType { ty: ty.ptr_type(AddressSpace::default()) }
}

/// `IntType::fn_type`: the type of functions that take `params` and return
/// `ret`, without variable arguments.
#[verifier::external_body]
pub(crate) fn int_fn_type<'ctx>(ret: IntType<'ctx>, params: &Vec<IntType<'ctx>>) -> (ty:
    FunctionType<'ctx>) {
    let params: Vec<BasicMetadataTypeEnum<'ctx>> = params.iter().map(|p| (*p).into()).collect();
    ret.fn_type(&params, false)
}

/// `PointerType::fn_type`: the type of functions that take nothing and
/// return a pointer of type `ret`.
#[verifier::external_body]
pub(crate) fn pointer_fn_type<'ctx>(ret: IntPointerType<'ctx>) -> (ty: FunctionType<'ctx>) {
    ret.ty.fn_type(&[], false)
}

/// `Module::add_function`, with default linkage: a new function in the
/// module. It is a declaration until a block is appended to it.
#[verifier::external_body]
pub(crate) fn add_function<'ctx>(module: &Module<'ctx>, name: &str, ty: FunctionType<'ctx>) -> (f:
    FunctionValue<'ctx>) {
    module.add_function(name, ty, None)
}

/// `Context::append_basic_block`: a new, empty block at the end of
/// `function`.
#[verifier::external_body]
pub(crate) fn append_basic_block<'ctx>(
    context: &'ctx Context,
    function: FunctionValue<'ctx>,
    name: &str,
) -> (block: BasicBlock<'ctx>) {
    context.append_basic_block(function, name)
}

/// `Builder::position_at_end`: what is built next goes to the end of
/// `block`.
#[verifier::external_body]
pub(crate) fn position_at_end<'ctx>(builder: &Builder<'ctx>, block: BasicBlock<'ctx>) {
    builder.position_at_end(block)
}

/// `Builder::build_array_malloc`: a heap allocation of `count` elements of
/// type `element`.
#[verifier::external_body]
pub(crate) fn build_array_malloc<'ctx>(
    builder: &Builder<'ctx>,
    element: IntType<'ctx>,
    count: IntValue<'ctx>,
    name: &str,
) -> (r: Result<IntPointer<'ctx>, BuilderError>) {
    match builder.build_array_malloc(element, count, name) {
        Ok(pointer) => Ok(IntPointer { pointer }),
        Err(e) => Err(e),
    }
}

/// `Builder::build_memset`: fills `size` bytes at `dest` with `value`. The
/// call refuses an alignment that is not a power of two.
#[verifier::external_body]
pub(crate) fn build_memset<'ctx>(
    builder: &Builder<'ctx>,
    dest: IntPointer<'ctx>,
    align: u32,
    value: IntValue<'ctx>,
    size: IntValue<'ctx>,
) -> (r: Result<(), BuilderError>) {
    match builder.build_memset(dest.pointer, align, value, size) {
        Ok(_) => Ok(()),
        Err(e) => Err(e),
    }
}

/// `Builder::build_alloca`: a slot of type `ty` in the function's frame.
#[verifier::external_body]
pub(crate) fn build_alloca<'ctx>(builder: &Builder<'ctx>, ty: IntType<'ctx>, name: &str) -> (r:
    Result<IntPointer<'ctx>, BuilderError>) {
    match builder.build_alloca(ty, name) {
        Ok(pointer) => Ok(IntPointer { pointer }),
        Err(e) => Err(e),
    }
}

/// `Builder::build_store`: writes `value` through `to`.
#[verifier::external_body]
pub(crate) fn build_store<'ctx>(
    builder: &Builder<'ctx>,
    to: IntPointer<'ctx>,
    value: IntValue<'ctx>,
) -> (r: Result<(), BuilderError>) {
    match builder.build_store(to.pointer, value) {
        Ok(_) => Ok(()),
        Err(e) => Err(e),
    }
}

/// `Builder::build_load`: reads the integer that `from` points to. `None`
/// stands for a loaded value that is no integer.
#[verifier::external_body]
pub(crate) fn build_load<'ctx>(builder: &Builder<'ctx>, from: IntPointer<'ctx>, name: &str) -> (r:
    Result<Option<IntValue<'ctx>>, BuilderError>) {
    match builder.build_load(from.pointer, name) {
        Ok(BasicValueEnum::IntValue(value)) => Ok(Some(value)),
        Ok(_) => Ok(None),
        Err(e) => Err(e),
    }
}

/// `Builder::build_int_add`: the sum of two integers, wrapping at their
/// width.
#[verifier::external_body]
pub(crate) fn build_int_add<'ctx>(
    builder: &Builder<'ctx>,
    lhs: IntValue<'ctx>,
    rhs: IntValue<'ctx>,
    name: &str,
) -> (r: Result<IntValue<'ctx>, BuilderError>) {
    builder.build_int_add(lhs, rhs, name)
}

/// `Builder::build_int_sub`: the difference of two integers, wrapping at
/// their width.
#[verifier::external_body]
pub(crate) fn build_int_sub<'ctx>(
    builder: &Builder<'ctx>,
    lhs: IntValue<'ctx>,
    rhs: IntValue<'ctx>,
    name: &str,
) -> (r: Result<IntValue<'ctx>, BuilderError>) {
    builder.build_int_sub(lhs, rhs, name)
}

/// `Builder::build_int_unsigned_rem`: the unsigned remainder of `lhs` by
/// `rhs`.
#[verifier::external_body]
pub(crate) fn build_int_unsigned_rem<'ctx>(
    builder: &Builder<'ctx>,
    lhs: IntValue<'ctx>,
    rhs: IntValue<'ctx>,
    name: &str,
) -> (r: Result<IntValue<'ctx>, BuilderError>) {
    builder.build_int_unsigned_rem(lhs, rhs, name)
}

/// `Builder::build_int_z_extend`: `value` widened to `ty` with zeros.
#[verifier::external_body]
pub(crate) fn build_int_z_extend<'ctx>(
    builder: &Builder<'ctx>,
    value: IntValue<'ctx>,
    ty: IntType<'ctx>,
    name: &str,
) -> (r: Result<IntValue<'ctx>, BuilderError>) {
    builder.build_int_z_extend(value, ty, name)
}

/// `Builder::build_int_truncate`: the low bits of `value` as a `ty`.
#[verifier::external_body]
pub(crate) fn build_int_truncate<'ctx>(
    builder: &Builder<'ctx>,
    value: IntValue<'ctx>,
    ty: IntType<'ctx>,
    name: &str,
) -> (r: Result<IntValue<'ctx>, BuilderError>) {
    builder.build_int_truncate(value, ty, name)
}

/// `Builder::build_int_compare`, with the predicate for equality: a one-bit
/// value that tells whether `lhs` and `rhs` are equal.
#[verifier::external_body]
pub(crate) fn build_int_equal<'ctx>(
    builder: &Builder<'ctx>,
    lhs: IntValue<'ctx>,
    rhs: IntValue<'ctx>,
    name: &str,
) -> (r: Result<IntValue<'ctx>, BuilderError>) {
    builder.build_int_compare(IntPredicate::EQ, lhs, rhs, name)
}

/// `Builder::build_conditional_branch`: ends the block with a jump to
/// `then_block` where `condition` holds and to `else_block` where not.
#[verifier::external_body]
pub(crate) fn build_conditional_branch<'ctx>(
    builder: &Builder<'ctx>,
    condition: IntValue<'ctx>,
    then_block: BasicBlock<'ctx>,
    else_block: BasicBlock<'ctx>,
) -> (r: Result<(), BuilderError>) {
    match builder.build_conditional_branch(condition, then_block, else_block) {
        Ok(_) => Ok(()),
        Err(e) => Err(e),
    }
}

/// `Builder::build_call`: a call of `function` with `args`. The result is
/// the value the call returns where that is an integer, else `None`.
#[verifier::external_body]
pub(crate) fn build_call<'ctx>(
    builder: &Builder<'ctx>,
    function: FunctionValue<'ctx>,
    args: &Vec<IntValue<'ctx>>,
    name: &str,
) -> (r: Result<Option<IntValue<'ctx>>, BuilderError>) {
    let args: Vec<BasicMetadataValueEnum<'ctx>> = args.iter().map(|a| (*a).into()).collect();
    match builder.build_call(function, &args, name)?.try_as_basic_value().basic() {
        Some(BasicValueEnum::IntValue(value)) => Ok(Some(value)),
        _ => Ok(None),
    }
}

/// `Builder::build_free`: releases a heap allocation.
#[verifier::external_body]
pub(crate) fn build_free<'ctx>(builder: &Builder<'ctx>, pointer: IntPointer<'ctx>) -> (r: Result<
    (),
    BuilderError,
>) {
    match builder.build_free(pointer.pointer) {
        Ok(_) => Ok(()),
        Err(e) => Err(e),
    }
}

/// `Builder::build_return`, with an integer: ends the block by returning
/// `value`.
#[verifier::external_body]
pub(crate) fn build_return_int<'ctx>(builder: &Builder<'ctx>, value: IntValue<'ctx>) -> (r:
    Result<(), BuilderError>) {
    match builder.build_return(Some(&value)) {
        Ok(_) => Ok(()),
        Err(e) => Err(e),
    }
}

/// `Builder::build_return`, with a pointer: ends the block by returning
/// `pointer`.
#[verifier::external_body]
pub(crate) fn build_return_pointer<'ctx>(
    builder: &Builder<'ctx>,
    pointer: IntPointer<'ctx>,
) -> (r: Result<(), BuilderError>) {
    match builder.build_return(Some(&pointer.pointer)) {
        Ok(_) => Ok(()),
        Err(e) => Err(e),
    }
}

/// `Builder::build_ptr_to_int`: the address in `pointer` as an integer of
/// type `ty`.
#[verifier::external_body]
pub(crate) fn build_ptr_to_int<'ctx>(
    builder: &Builder<'ctx>,
    pointer: IntPointer<'ctx>,
    ty: IntType<'ctx>,
    name: &str,
) -> (r: Result<IntValue<'ctx>, BuilderError>) {
    builder.build_ptr_to_int(pointer.pointer, ty, name)
}

/// `Builder::build_int_to_ptr`: the integer `address` as a pointer of type
/// `ty`.
#[verifier::external_body]
pub(crate) fn build_int_to_ptr<'ctx>(
    builder: &Builder<'ctx>,
    address: IntValue<'ctx>,
    ty: IntPointerType<'ctx>,
    name: &str,
) -> (r: Result<IntPointer<'ctx>, BuilderError>) {
    match builder.build_int_to_ptr(address, ty.ty, name) {
        Ok(pointer) => Ok(IntPointer { pointer }),
        Err(e) => Err(e),
    }
}

/// `Module::create_jit_execution_engine`, without optimisation: an engine
/// that owns the module and compiles it for this machine. Whether one can
/// be had depends on the machine.
#[verifier::external_body]
pub(crate) fn create_jit_execution_engine<'ctx>(module: &Module<'ctx>) -> (r: Result<
    ExecutionEngine<'ctx>,
    LLVMString,
>) {
    module.create_jit_execution_engine(OptimizationLevel::None)
}

/// `Target::initialize_all`, with every part switched on: makes LLVM's
/// targets known to this process.
#[verifier::external_body]
pub(crate) fn initialize_all_targets() {
    Target::initialize_all(&InitializationConfig::default())
}

/// `TargetMachine::get_default_triple`: the triple of the machine LLVM was
/// built for.
#[verifier::external_body]
pub(crate) fn default_triple() -> (triple: TargetTriple) {
    TargetMachine::get_default_triple()
}

/// `Target::from_triple`: the target that a triple names, if LLVM knows it.
#[verifier::external_body]
pub(crate) fn target_from_triple(triple: &TargetTriple) -> (r: Result<Target, LLVMString>) {
    Target::from_triple(triple)
}

/// `Target::create_target_machine`, for the given processor and features,
/// with default optimisation, relocation and code model. `None` where LLVM
/// cannot make a machine of the target.
#[verifier::external_body]
pub(crate) fn create_target_machine(
    target: &Target,
    triple: &TargetTriple,
    cpu: &str,
    features: &str,
) -> (r: Option<TargetMachine>) {
    target.create_target_machine(
        triple,
        cpu,
        features,
        OptimizationLevel::Default,
        RelocMode::Default,
        CodeModel::Default,
    )
}

/// `ExecutionEngine::get_target_data`: the data layout of the machine that
/// the engine compiles for.
#[verifier::external_body]
pub(crate) fn engine_target_data<'a, 'ctx>(engine: &'a ExecutionEngine<'ctx>) -> (data:
    &'a TargetData) {
    engine.get_target_data()
}

/// `TargetMachine::get_target_data`: the data layout of the target machine.
#[verifier::external_body]
pub(crate) fn machine_target_data(machine: &TargetMachine) -> (data: TargetData) {
    machine.get_target_data()
}

/// `Context::ptr_sized_int_type`, in the default address space: the
/// integer type that is as wide as a pointer of the given layout.
#[verifier::external_body]
pub(crate) fn ptr_sized_int_type<'ctx>(context: &'ctx Context, data: &TargetData) -> (ty:
    IntType<'ctx>) {
    context.ptr_sized_int_type(data, None)
}

/// `IntType::get_bit_width`: how many bits the type has.
#[verifier::external_body]
pub(crate) fn int_bit_width<'ctx>(ty: IntType<'ctx>) -> (bits: u32) {
    ty.get_bit_width()
}

} // verus!
