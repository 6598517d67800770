use bf_compiler::instruction::{run_symbol, symbol};
use bf_compiler::scanner::{count_chars_of_type, scan};
use bf_compiler::Instruction;

fn expand(stream: &[Instruction]) -> String {
    let mut text = String::new();
    for instruction in stream {
        match *instruction {
            Instruction::AddCell(n) => text.push_str(&"+".repeat(n as usize)),
            Instruction::SubCell(n) => text.push_str(&"-".repeat(n as usize)),
            Instruction::ShiftRight(n) => text.push_str(&">".repeat(n as usize)),
            Instruction::ShiftLeft(n) => text.push_str(&"<".repeat(n as usize)),
            Instruction::LoopStart => text.push('['),
            Instruction::LoopEnd => text.push(']'),
            Instruction::Output => text.push('.'),
            Instruction::Input => text.push(','),
            Instruction::Skip => {}
        }
    }
    text
}

#[test]
fn counts_the_leading_run() {
    assert_eq!(count_chars_of_type("+++-", '+'), (3, 3));
    assert_eq!(count_chars_of_type(">>>>", '>'), (4, 4));
    assert_eq!(count_chars_of_type("-", '-'), (1, 1));
}

#[test]
fn counts_nothing_where_the_text_starts_otherwise() {
    assert_eq!(count_chars_of_type("", '+'), (0, 1));
    assert_eq!(count_chars_of_type("-+", '+'), (0, 1));
    assert_eq!(count_chars_of_type(" +", '+'), (0, 1));
    assert_eq!(count_chars_of_type("[[", ']'), (0, 1));
}

#[test]
fn counts_nothing_of_a_character_that_is_no_symbol() {
    assert_eq!(count_chars_of_type("xx+", 'x'), (0, 1));
    assert_eq!(count_chars_of_type("  ", ' '), (0, 1));
    assert_eq!(count_chars_of_type("", 'x'), (0, 1));
}

#[test]
fn counts_runs_of_the_symbols_that_are_never_folded() {
    assert_eq!(count_chars_of_type("[[]", '['), (2, 2));
    assert_eq!(count_chars_of_type("..,", '.'), (2, 2));
}

#[test]
fn a_run_ends_at_any_other_character() {
    assert_eq!(count_chars_of_type("++ +", '+'), (2, 2));
    assert_eq!(count_chars_of_type("+\u{e9}+", '+'), (1, 1));
    assert_eq!(count_chars_of_type("<<x<", '<'), (2, 2));
}

#[test]
fn tells_the_symbols_apart() {
    for c in ['+', '-', '<', '>'] {
        assert!(run_symbol(c));
        assert!(symbol(c));
    }
    for c in ['[', ']', ',', '.'] {
        assert!(!run_symbol(c));
        assert!(symbol(c));
    }
    for c in ['a', ' ', '\n', '\u{e9}', '0'] {
        assert!(!run_symbol(c));
        assert!(!symbol(c));
    }
}

#[test]
fn folds_and_singles() {
    assert_eq!(Instruction::fold('+', 3), Instruction::AddCell(3));
    assert_eq!(Instruction::fold('-', 258), Instruction::SubCell(2));
    assert_eq!(Instruction::fold('>', 258), Instruction::ShiftRight(258));
    assert_eq!(Instruction::fold('<', 1), Instruction::ShiftLeft(1));
    assert_eq!(Instruction::single('['), Instruction::LoopStart);
    assert_eq!(Instruction::single(']'), Instruction::LoopEnd);
    assert_eq!(Instruction::single('.'), Instruction::Output);
    assert_eq!(Instruction::single(','), Instruction::Input);
    assert_eq!(Instruction::single('#'), Instruction::Skip);
}

#[test]
fn only_run_symbols_fold() {
    assert_eq!(Instruction::fold('[', 3), Instruction::LoopStart);
    assert_eq!(Instruction::fold('.', 0), Instruction::Output);
    assert_eq!(Instruction::fold('x', 9), Instruction::Skip);
    assert_eq!(Instruction::single('+'), Instruction::AddCell(1));
    assert_eq!(Instruction::single('<'), Instruction::ShiftLeft(1));
}

#[test]
fn scans_an_empty_text() {
    assert_eq!(scan(""), vec![]);
}

#[test]
fn scans_each_symbol() {
    assert_eq!(
        scan("+-<>[],."),
        vec![
            Instruction::AddCell(1),
            Instruction::SubCell(1),
            Instruction::ShiftLeft(1),
            Instruction::ShiftRight(1),
            Instruction::LoopStart,
            Instruction::LoopEnd,
            Instruction::Input,
            Instruction::Output,
        ]
    );
}

#[test]
fn folds_runs() {
    assert_eq!(
        scan("+++>>--<<<<"),
        vec![
            Instruction::AddCell(3),
            Instruction::ShiftRight(2),
            Instruction::SubCell(2),
            Instruction::ShiftLeft(4),
        ]
    );
}

#[test]
fn never_folds_loops_or_host_calls() {
    assert_eq!(
        scan("[[..,,]]"),
        vec![
            Instruction::LoopStart,
            Instruction::LoopStart,
            Instruction::Output,
            Instruction::Output,
            Instruction::Input,
            Instruction::Input,
            Instruction::LoopEnd,
            Instruction::LoopEnd,
        ]
    );
}

#[test]
fn other_characters_become_skips_one_each() {
    assert_eq!(
        scan("a b\n"),
        vec![Instruction::Skip, Instruction::Skip, Instruction::Skip, Instruction::Skip]
    );
    assert_eq!(scan("\u{e9}\u{1f600}"), vec![Instruction::Skip, Instruction::Skip]);
}

#[test]
fn a_skip_is_not_folded_into_a_run() {
    assert_eq!(
        scan("+ +"),
        vec![Instruction::AddCell(1), Instruction::Skip, Instruction::AddCell(1)]
    );
    assert_eq!(
        scan(">>\u{e9}>"),
        vec![Instruction::ShiftRight(2), Instruction::Skip, Instruction::ShiftRight(1)]
    );
}

#[test]
fn cell_counts_are_kept_modulo_256() {
    assert_eq!(scan(&"+".repeat(255)), vec![Instruction::AddCell(255)]);
    assert_eq!(scan(&"+".repeat(256)), vec![Instruction::AddCell(0)]);
    assert_eq!(scan(&"+".repeat(257)), vec![Instruction::AddCell(1)]);
    assert_eq!(scan(&"-".repeat(600)), vec![Instruction::SubCell(88)]);
}

#[test]
fn shift_counts_are_not_reduced() {
    assert_eq!(scan(&">".repeat(300)), vec![Instruction::ShiftRight(300)]);
    assert_eq!(scan(&"<".repeat(65535)), vec![Instruction::ShiftLeft(65535)]);
    assert_eq!(scan(&">".repeat(70000)), vec![Instruction::ShiftRight(70000)]);
}

#[test]
fn expansion_restores_a_text_of_symbols() {
    for text in ["", "+", "++[->+<]>.", "[[]],,..<<<>>>---+++", "][", "+-+-+-"] {
        assert_eq!(expand(&scan(text)), text);
    }
    let long = format!("{}[{}]{}", "+".repeat(255), ">".repeat(1000), "-".repeat(255));
    assert_eq!(expand(&scan(&long)), long);
}

#[test]
fn expansion_drops_what_is_not_a_symbol() {
    assert_eq!(expand(&scan("+ + x[-]\n")), "++[-]");
}
