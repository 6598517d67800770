use bf_compiler::backend::{backend_result, backend_value, pointer_width_result, write_result};
use bf_compiler::codegen::lower;
use bf_compiler::listing::{declaration_listing, entry_listing};
use bf_compiler::scanner::scan;
use bf_compiler::{compile, CodeGen, CompileError, OutputMode};
use inkwell::builder::BuilderError;
use inkwell::context::Context;
use inkwell::targets::FileType;

#[test]
fn a_backend_failure_becomes_an_allocation_failure() {
    let failed: Result<u8, BuilderError> = Err(BuilderError::UnsetPosition);
    assert_eq!(backend_result(failed), Err(CompileError::BackendAllocationFailure));
    let built: Result<u8, BuilderError> = Ok(7);
    assert_eq!(backend_result(built), Ok(7));
}

#[test]
fn a_failed_write_becomes_a_write_failure() {
    let failed: Result<(), String> = Err("disk full".to_string());
    assert_eq!(write_result(failed), Err(CompileError::BackendWriteFailure));
    let written: Result<u8, String> = Ok(3);
    assert_eq!(write_result(written), Ok(3));
}

#[test]
fn pointers_of_32_bits_and_more_are_wide_enough() {
    for bits in [0u32, 1, 8, 16, 31] {
        assert_eq!(pointer_width_result(bits), Err(CompileError::BackendAllocationFailure));
    }
    for bits in [32u32, 33, 64, 128, u32::MAX] {
        assert_eq!(pointer_width_result(bits), Ok(()));
    }
}

#[test]
fn a_value_of_the_wrong_kind_is_a_backend_failure() {
    let missing: Result<Option<u8>, BuilderError> = Ok(None);
    assert_eq!(backend_value(missing), Err(CompileError::BackendAllocationFailure));
    let failed: Result<Option<u8>, BuilderError> = Err(BuilderError::UnsetPosition);
    assert_eq!(backend_value(failed), Err(CompileError::BackendAllocationFailure));
    let built: Result<Option<u8>, BuilderError> = Ok(Some(7));
    assert_eq!(backend_value(built), Ok(7));
}

#[test]
fn a_jit_compiler_has_an_engine() {
    let context = Context::create();
    let codegen = CodeGen::new_jit(&context).unwrap();
    assert!(codegen.execution_engine().is_some());
    assert!(codegen.target_machine().is_none());
    let codegen = CodeGen::new(&context, OutputMode::Execute).unwrap();
    assert!(codegen.execution_engine().is_some());
}

#[test]
fn an_object_compiler_has_a_target_machine() {
    let context = Context::create();
    let codegen = CodeGen::new_comp(&context).unwrap();
    assert!(codegen.execution_engine().is_none());
    assert!(codegen.target_machine().is_some());
    let codegen = CodeGen::new(&context, OutputMode::Emit).unwrap();
    assert!(codegen.target_machine().is_some());
}

#[test]
fn the_built_module_is_valid() {
    for text in ["", "+", "+[-]", ",[.,]", "+++[>++<-]>.", "<<<>>>>>[[-]<]", "a b c"] {
        for mode in [OutputMode::Execute, OutputMode::Emit] {
            let context = Context::create();
            let (codegen, function) = compile(&context, text, mode).unwrap();
            if let Err(message) = codegen.module().verify() {
                panic!("{:?} {:?}: {}", text, mode, message.to_string());
            }
            let main = codegen.module().get_function("main").unwrap();
            assert_eq!(main.count_basic_blocks() as usize, function.blocks().len());
            assert!(codegen.module().get_function("putchar").is_some());
            assert!(codegen.module().get_function("getchar").is_some());
        }
    }
}

#[test]
fn one_pair_of_blocks_per_loop() {
    let context = Context::create();
    let (codegen, _) = compile(&context, "[[]][]", OutputMode::Execute).unwrap();
    let main = codegen.module().get_function("main").unwrap();
    assert_eq!(main.count_basic_blocks(), 7);
    let names: Vec<String> = main
        .get_basic_blocks()
        .iter()
        .map(|b| b.get_name().to_str().unwrap().to_string())
        .collect();
    assert_eq!(names[0], "entry");
    assert!(names[1].starts_with("start_of_loop"));
    assert!(names[2].starts_with("end_of_loop"));
}

#[test]
fn the_epilogue_follows_the_mode() {
    let context = Context::create();
    let (codegen, _) = compile(&context, "+.", OutputMode::Execute).unwrap();
    let ir = codegen.module().print_to_string().to_string();
    assert!(ir.contains("define i8* @main()"), "{}", ir);
    assert!(ir.contains("ret i8*"), "{}", ir);
    assert!(!ir.contains("@free"), "{}", ir);

    let context = Context::create();
    let (codegen, _) = compile(&context, "+.", OutputMode::Emit).unwrap();
    let ir = codegen.module().print_to_string().to_string();
    assert!(ir.contains("define i32 @main()"), "{}", ir);
    assert!(ir.contains("ret i32 0"), "{}", ir);
    assert!(ir.contains("@free"), "{}", ir);
}

#[test]
fn host_routines_are_called_once_per_symbol() {
    let context = Context::create();
    let (codegen, _) = compile(&context, "+++.,,", OutputMode::Execute).unwrap();
    let ir = codegen.module().print_to_string().to_string();
    assert_eq!(ir.matches("call i32 @putchar(i32").count(), 1, "{}", ir);
    assert_eq!(ir.matches("call i32 @getchar()").count(), 2, "{}", ir);
    assert!(ir.contains("zext i8"), "{}", ir);
    assert!(ir.contains("trunc i32"), "{}", ir);
}

#[test]
fn the_pointer_is_reduced_by_an_unsigned_remainder() {
    let context = Context::create();
    let (codegen, _) = compile(&context, &">".repeat(65536), OutputMode::Execute).unwrap();
    let ir = codegen.module().print_to_string().to_string();
    assert_eq!(ir.matches("urem i64").count(), 1, "{}", ir);
    assert!(ir.contains("%position = load i64, i64* %offset"), "{}", ir);
    assert!(ir.contains("%sum = add i64 %position, 1\n"), "{}", ir);
    assert!(ir.contains("%reduced = urem i64 %sum, 65535\n"), "{}", ir);
    assert!(ir.contains("store i64 %reduced, i64* %offset"), "{}", ir);
}

#[test]
fn a_shift_to_the_left_adds_the_tape_size_first() {
    let context = Context::create();
    let (codegen, _) = compile(&context, &"<".repeat(65537), OutputMode::Execute).unwrap();
    let ir = codegen.module().print_to_string().to_string();
    assert!(ir.contains("%sum = add i64 %position, 65535\n"), "{}", ir);
    assert!(ir.contains("%difference = sub i64 %sum, 2\n"), "{}", ir);
    assert!(ir.contains("%reduced = urem i64 %difference, 65535\n"), "{}", ir);
}

#[test]
fn a_cell_edit_loads_adds_and_stores() {
    let context = Context::create();
    let (codegen, _) = compile(&context, "+++", OutputMode::Execute).unwrap();
    let ir = codegen.module().print_to_string().to_string();
    assert!(ir.contains("%base = ptrtoint i8* %tape to i64"), "{}", ir);
    assert!(ir.contains("%sum = add i64 %base, %position"), "{}", ir);
    assert!(ir.contains("%cell = inttoptr i64 %sum to i8*"), "{}", ir);
    assert!(ir.contains("%value = load i8, i8* %cell"), "{}", ir);
    assert!(ir.contains("%sum1 = add i8 %value, 3\n"), "{}", ir);
    assert!(ir.contains("store i8 %sum1, i8* %cell"), "{}", ir);
    let context = Context::create();
    let (codegen, _) = compile(&context, "--", OutputMode::Execute).unwrap();
    let ir = codegen.module().print_to_string().to_string();
    assert!(ir.contains("%difference = sub i8 %value, 2\n"), "{}", ir);
}

#[test]
fn a_loop_test_compares_the_cell_with_zero() {
    let context = Context::create();
    let (codegen, _) = compile(&context, "[]", OutputMode::Execute).unwrap();
    let ir = codegen.module().print_to_string().to_string();
    assert_eq!(ir.matches("icmp eq i8").count(), 2, "{}", ir);
    assert!(
        ir.contains("br i1 %is_zero, label %end_of_loop, label %start_of_loop"),
        "{}",
        ir
    );
}

#[test]
fn the_tape_is_allocated_and_zeroed_once() {
    let context = Context::create();
    let (codegen, _) = compile(&context, "+[-]", OutputMode::Execute).unwrap();
    let ir = codegen.module().print_to_string().to_string();
    assert_eq!(ir.matches("call i8* @malloc").count(), 1, "{}", ir);
    assert_eq!(ir.matches("call void @llvm.memset").count(), 1, "{}", ir);
    assert!(ir.contains("i8 0, i32 65535"), "{}", ir);
    assert!(ir.contains("store i64 0, i64* %offset"), "{}", ir);
}

#[test]
fn bracket_errors_come_before_anything_is_built() {
    let context = Context::create();
    let codegen = CodeGen::new_jit(&context).unwrap();
    assert_eq!(
        codegen.gen_bf("+]", OutputMode::Execute).err(),
        Some(CompileError::UnmatchedCloseBracket)
    );
    assert_eq!(
        codegen.gen_bf("[+", OutputMode::Execute).err(),
        Some(CompileError::UnmatchedOpenBracket)
    );
    assert!(codegen.module().get_function("main").is_none());
    assert_eq!(
        compile(&context, "][", OutputMode::Emit).err(),
        Some(CompileError::UnmatchedCloseBracket)
    );
}

#[test]
fn a_bracket_error_is_found_without_the_backend() {
    let context = Context::create();
    for mode in [OutputMode::Execute, OutputMode::Emit] {
        assert_eq!(compile(&context, "+]", mode).err(), Some(CompileError::UnmatchedCloseBracket));
        assert_eq!(compile(&context, "[[]", mode).err(), Some(CompileError::UnmatchedOpenBracket));
        assert_eq!(compile(&context, "][", mode).err(), Some(CompileError::UnmatchedCloseBracket));
    }
}

#[test]
fn the_declarations_follow_the_signatures() {
    let context = Context::create();
    let (codegen, _) = compile(&context, "", OutputMode::Execute).unwrap();
    let ir = codegen.module().print_to_string().to_string();
    assert!(ir.contains("declare i32 @putchar(i32)"), "{}", ir);
    assert!(ir.contains("declare i32 @getchar()"), "{}", ir);
    assert!(ir.contains("define i8* @main()"), "{}", ir);
}

#[test]
fn emit_hands_back_what_it_asked_of_the_backend() {
    for mode in [OutputMode::Execute, OutputMode::Emit] {
        let context = Context::create();
        let codegen = CodeGen::new(&context, mode).unwrap();
        let function = lower(&scan("+[->,.<]."), mode).unwrap();
        let asked = codegen.emit(&function).unwrap();
        assert_eq!(asked.declarations, declaration_listing(mode));
        assert_eq!(asked.entry, entry_listing());
        assert_eq!(asked.blocks.len(), 3);
        for (b, block) in function.blocks().iter().enumerate() {
            assert_eq!(asked.blocks[b], CodeGen::block_listing(block, mode));
        }
        assert!(codegen.module().verify().is_ok());
    }
}

#[test]
fn an_object_can_be_made_of_the_module() {
    let context = Context::create();
    let (codegen, _) = compile(&context, "+[-].", OutputMode::Emit).unwrap();
    let machine = codegen.target_machine().unwrap();
    let object = machine.write_to_memory_buffer(codegen.module(), FileType::Object).unwrap();
    assert!(object.get_size() > 0);
}
