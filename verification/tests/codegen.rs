use bf_compiler::codegen::lower;
use bf_compiler::scanner::scan;
use bf_compiler::{
    BlockKind, CompileError, Instruction, LoopFrame, LoopStack, Op, OutputMode, Terminator,
};

#[test]
fn the_loop_stack_matches_innermost_first() {
    let mut stack = LoopStack::new();
    assert_eq!(stack.depth(), 0);
    assert_eq!(stack.finish(), Ok(()));
    stack.push(LoopFrame { body: 1, exit: 2 });
    stack.push(LoopFrame { body: 3, exit: 4 });
    assert_eq!(stack.depth(), 2);
    assert_eq!(stack.finish(), Err(CompileError::UnmatchedOpenBracket));
    assert_eq!(stack.pop(), Ok(LoopFrame { body: 3, exit: 4 }));
    assert_eq!(stack.pop(), Ok(LoopFrame { body: 1, exit: 2 }));
    assert_eq!(stack.depth(), 0);
    assert_eq!(stack.finish(), Ok(()));
}

#[test]
fn popping_an_empty_loop_stack_is_an_unmatched_close() {
    let mut stack = LoopStack::new();
    assert_eq!(stack.pop(), Err(CompileError::UnmatchedCloseBracket));
    assert_eq!(stack.depth(), 0);
    stack.push(LoopFrame { body: 1, exit: 2 });
    assert_eq!(stack.pop(), Ok(LoopFrame { body: 1, exit: 2 }));
    assert_eq!(stack.pop(), Err(CompileError::UnmatchedCloseBracket));
}

#[test]
fn an_empty_stream_is_one_returning_block() {
    let function = lower(&vec![], OutputMode::Execute).unwrap();
    assert_eq!(function.mode(), OutputMode::Execute);
    let blocks = function.blocks();
    assert_eq!(blocks.len(), 1);
    assert_eq!(blocks[0].kind, BlockKind::Entry);
    assert_eq!(blocks[0].ops, vec![]);
    assert_eq!(blocks[0].terminator, Terminator::Return);
}

#[test]
fn straight_line_code_stays_in_the_entry_block() {
    let function = lower(&scan("+++ >,.<<-"), OutputMode::Emit).unwrap();
    assert_eq!(function.mode(), OutputMode::Emit);
    let blocks = function.blocks();
    assert_eq!(blocks.len(), 1);
    assert_eq!(
        blocks[0].ops,
        vec![
            Op::AddCell(3),
            Op::ShiftRight(1),
            Op::Input,
            Op::Output,
            Op::ShiftLeft(2),
            Op::SubCell(1),
        ]
    );
    assert_eq!(blocks[0].terminator, Terminator::Return);
}

#[test]
fn a_loop_is_a_pair_of_blocks() {
    let function = lower(&scan("+[-]."), OutputMode::Execute).unwrap();
    let blocks = function.blocks();
    assert_eq!(blocks.len(), 3);
    assert_eq!(blocks[0].kind, BlockKind::Entry);
    assert_eq!(blocks[0].ops, vec![Op::AddCell(1)]);
    assert_eq!(blocks[0].terminator, Terminator::Branch { exit: 2, body: 1 });
    assert_eq!(blocks[1].kind, BlockKind::LoopBody);
    assert_eq!(blocks[1].ops, vec![Op::SubCell(1)]);
    assert_eq!(blocks[1].terminator, Terminator::Branch { exit: 2, body: 1 });
    assert_eq!(blocks[2].kind, BlockKind::LoopExit);
    assert_eq!(blocks[2].ops, vec![Op::Output]);
    assert_eq!(blocks[2].terminator, Terminator::Return);
}

#[test]
fn nested_and_following_loops_get_their_own_pairs() {
    let function = lower(&scan("[>[+]<]-[.]"), OutputMode::Execute).unwrap();
    let blocks = function.blocks();
    assert_eq!(blocks.len(), 7);
    assert_eq!(blocks[0].terminator, Terminator::Branch { exit: 2, body: 1 });
    assert_eq!(blocks[1].ops, vec![Op::ShiftRight(1)]);
    assert_eq!(blocks[1].terminator, Terminator::Branch { exit: 4, body: 3 });
    assert_eq!(blocks[3].ops, vec![Op::AddCell(1)]);
    assert_eq!(blocks[3].terminator, Terminator::Branch { exit: 4, body: 3 });
    assert_eq!(blocks[4].ops, vec![Op::ShiftLeft(1)]);
    assert_eq!(blocks[4].terminator, Terminator::Branch { exit: 2, body: 1 });
    assert_eq!(blocks[2].ops, vec![Op::SubCell(1)]);
    assert_eq!(blocks[2].terminator, Terminator::Branch { exit: 6, body: 5 });
    assert_eq!(blocks[5].ops, vec![Op::Output]);
    assert_eq!(blocks[5].terminator, Terminator::Branch { exit: 6, body: 5 });
    assert_eq!(blocks[6].ops, vec![]);
    assert_eq!(blocks[6].terminator, Terminator::Return);
    for (i, block) in blocks.iter().enumerate() {
        let kind = if i == 0 {
            BlockKind::Entry
        } else if i % 2 == 1 {
            BlockKind::LoopBody
        } else {
            BlockKind::LoopExit
        };
        assert_eq!(block.kind, kind);
    }
}

#[test]
fn skips_leave_no_trace() {
    let with = lower(&scan("a+b[c-d]e"), OutputMode::Execute).unwrap();
    let without = lower(&scan("+[-]"), OutputMode::Execute).unwrap();
    assert_eq!(with.blocks(), without.blocks());
}

#[test]
fn one_close_too_many_is_an_unmatched_close() {
    for text in ["]", "[]]", "+]-", "[[]]]", "][", "][[", "[]][[]"] {
        assert_eq!(
            lower(&scan(text), OutputMode::Execute).err(),
            Some(CompileError::UnmatchedCloseBracket),
            "{}",
            text
        );
    }
    let stream = vec![Instruction::LoopEnd];
    assert_eq!(
        lower(&stream, OutputMode::Emit).err(),
        Some(CompileError::UnmatchedCloseBracket)
    );
}

#[test]
fn one_open_too_many_is_an_unmatched_open() {
    for text in ["[", "[[]", "+[-", "[][", "[[[]]"] {
        assert_eq!(
            lower(&scan(text), OutputMode::Execute).err(),
            Some(CompileError::UnmatchedOpenBracket),
            "{}",
            text
        );
    }
    let stream = vec![Instruction::LoopStart];
    assert_eq!(
        lower(&stream, OutputMode::Emit).err(),
        Some(CompileError::UnmatchedOpenBracket)
    );
}

#[test]
fn matched_brackets_compile() {
    for text in ["", "[]", "[[]]", "[][]", "+[>[-]<-]."] {
        assert!(lower(&scan(text), OutputMode::Execute).is_ok(), "{}", text);
    }
}

#[test]
fn errors_have_messages() {
    assert_eq!(CompileError::UnmatchedCloseBracket.message(), "unmatched close bracket");
    assert_eq!(CompileError::UnmatchedOpenBracket.message(), "unmatched open bracket");
    assert_eq!(
        CompileError::BackendAllocationFailure.message(),
        "the code-generation backend failed"
    );
    assert_eq!(
        CompileError::BackendWriteFailure.message(),
        "the object code could not be written"
    );
}

#[test]
fn exactly_one_block_returns() {
    for text in ["", "+", "[]", "[[]]", "[][]", "+[>[-]<-].", "[[[]]][[]][]"] {
        let function = lower(&scan(text), OutputMode::Emit).unwrap();
        let returning = function
            .blocks()
            .iter()
            .filter(|block| block.terminator == Terminator::Return)
            .count();
        assert_eq!(returning, 1, "{}", text);
    }
}
