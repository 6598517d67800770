use vstd::prelude::*;
use vstd::std_specs::iter::IteratorSpec;
use vstd::utf8::{encode_scalar, encode_utf8};
use std::str::Chars;
use crate::instruction::{
    folded, instruction_for, is_run_symbol, is_symbol, run_symbol, symbol, unit, Instruction,
};

verus! {

broadcast use vstd::string::group_string_axioms;

/// `Chars::as_str` of std: the part of the text that the iterator has not
/// walked yet, as a string slice.
pub assume_specification<'a>[ Chars::<'a>::as_str ](chars: &Chars<'a>) -> (rest: &'a str)
    ensures
        rest@ == chars.remaining(),
;

/// The length of the run of `symbol` that `text` starts with.
pub open spec fn run_length(text: Seq<char>, symbol: char) -> nat
    decreases text.len(),
{
    if text.len() > 0 && text[0] == symbol {
        1 + run_length(text.drop_first(), symbol)
    } else {
        0
    }
}

/// A run is no longer than the text, ends at the first other character, and
/// holds only its symbol.
pub proof fn lemma_run_length(text: Seq<char>, symbol: char)
    ensures
        run_length(text, symbol) <= text.len(),
        text.len() > 0 && text[0] == symbol ==> run_length(text, symbol) >= 1,
        forall|i: int| 0 <= i < run_length(text, symbol) ==> text[i] == symbol,
        run_length(text, symbol) < text.len() ==> text[run_length(text, symbol) as int] != symbol,
    decreases text.len(),
{
    if text.len() > 0 && text[0] == symbol {
        let rest = text.drop_first();
        lemma_run_length(rest, symbol);
        assert forall|i: int| 0 <= i < run_length(text, symbol) implies text[i] == symbol by {
            if i > 0 {
                assert(text[i] == rest[i - 1]);
            }
        }
        if run_length(text, symbol) < text.len() {
            assert(text[run_length(text, symbol) as int] == rest[run_length(rest, symbol) as int]);
        }
    }
}

/// The folded instruction stream of a program text.
///
/// A run symbol starts a run that takes every following copy of itself and
/// becomes one counted instruction. Every other character becomes one
/// instruction of its own.
pub open spec fn scanned(text: Seq<char>) -> Seq<Instruction>
    decreases text.len(),
{
    if text.len() == 0 {
        Seq::empty()
    } else if is_run_symbol(text[0]) {
        let n = run_length(text, text[0]);
        proof {
            lemma_run_length(text, text[0]);
        }
        seq![folded(text[0], n)] + scanned(text.skip(n as int))
    } else {
        seq![unit(text[0])] + scanned(text.drop_first())
    }
}

/// `n` copies of one character.
pub open spec fn repeated(c: char, n: nat) -> Seq<char> {
    Seq::new(n, |i: int| c)
}

/// The symbols that one instruction stands for. A skipped character leaves
/// nothing behind.
pub open spec fn expansion(instruction: Instruction) -> Seq<char> {
    match instruction {
        Instruction::AddCell(n) => repeated('+', n as nat),
        Instruction::SubCell(n) => repeated('-', n as nat),
        Instruction::ShiftRight(n) => repeated('>', n as nat),
        Instruction::ShiftLeft(n) => repeated('<', n as nat),
        Instruction::LoopStart => seq!['['],
        Instruction::LoopEnd => seq![']'],
        Instruction::Output => seq!['.'],
        Instruction::Input => seq![','],
        Instruction::Skip => Seq::empty(),
    }
}

/// A stream written out again symbol by symbol.
pub open spec fn expanded(stream: Seq<Instruction>) -> Seq<char>
    decreases stream.len(),
{
    if stream.len() == 0 {
        Seq::empty()
    } else {
        expansion(stream[0]) + expanded(stream.drop_first())
    }
}

/// Whether every run of `+` or `-` in the text is short enough for its
/// length to be kept in a cell count as it is.
pub open spec fn cell_runs_fit(text: Seq<char>) -> bool {
    forall|i: int|
        0 <= i < text.len() && (text[i] == '+' || text[i] == '-') ==> run_length(
            #[trigger] text.skip(i),
            text[i],
        ) < 256
}

/// Folding loses nothing. A text made of the eight symbols alone, whose runs
/// of `+` and `-` are each shorter than 256, comes back symbol for symbol
/// when its instruction stream is expanded.
pub proof fn lemma_expansion_restores_text(text: Seq<char>)
    requires
        forall|i: int| 0 <= i < text.len() ==> is_symbol(#[trigger] text[i]),
        cell_runs_fit(text),
        text.len() <= u64::MAX,
    ensures
        expanded(scanned(text)) == text,
    decreases text.len(),
{
    if text.len() > 0 {
        let c = text[0];
        let n = if is_run_symbol(c) {
            run_length(text, c)
        } else {
            1
        };
        lemma_run_length(text, c);
        let rest = text.skip(n as int);
        let head = if is_run_symbol(c) {
            folded(c, n)
        } else {
            unit(c)
        };
        assert(text.drop_first() == text.skip(1));
        assert(scanned(text) == seq![head] + scanned(rest));
        assert forall|i: int| 0 <= i < rest.len() && (rest[i] == '+' || rest[i] == '-')
            implies run_length(#[trigger] rest.skip(i), rest[i]) < 256 by {
            assert(rest.skip(i) == text.skip(n + i));
        }
        lemma_expansion_restores_text(rest);
        assert((seq![head] + scanned(rest)).drop_first() == scanned(rest));
        assert(expanded(scanned(text)) == expansion(head) + rest);
        assert(text.skip(0) == text);
        assert(expansion(head) == text.take(n as int));
        assert(text.take(n as int) + rest == text);
    }
}

/// Whether two instructions are counted instructions of the same kind, as
/// two pieces of one run would be.
pub open spec fn same_run(a: Instruction, b: Instruction) -> bool {
    ||| a is AddCell && b is AddCell
    ||| a is SubCell && b is SubCell
    ||| a is ShiftRight && b is ShiftRight
    ||| a is ShiftLeft && b is ShiftLeft
}

/// A text that is not empty scans to a stream that starts with the
/// instruction of the text's first character and the run it starts.
proof fn lemma_first_instruction(text: Seq<char>)
    requires
        text.len() > 0,
    ensures
        scanned(text).len() > 0,
        scanned(text)[0] == instruction_for(
            text[0],
            run_length(text, text[0]),
        ),
{
}

/// Runs are maximal: no two instructions that follow one another in a
/// scanned stream are pieces of the same run.
pub proof fn lemma_runs_are_maximal(text: Seq<char>)
    ensures
        forall|i: int, j: int|
            0 <= i && j == i + 1 && j < scanned(text).len() ==> !same_run(
                #[trigger] scanned(text)[i],
                #[trigger] scanned(text)[j],
            ),
    decreases text.len(),
{
    if text.len() > 0 {
        let c = text[0];
        let n = if is_run_symbol(c) {
            run_length(text, c)
        } else {
            1
        };
        lemma_run_length(text, c);
        let rest = text.skip(n as int);
        assert(text.drop_first() == text.skip(1));
        let head = instruction_for(c, n);
        assert(scanned(text) == seq![head] + scanned(rest));
        lemma_runs_are_maximal(rest);
        if rest.len() > 0 {
            lemma_first_instruction(rest);
            assert(rest[0] == text[n as int]);
        }
        assert forall|i: int, j: int|
            0 <= i && j == i + 1 && j < scanned(text).len() implies !same_run(
            #[trigger] scanned(text)[i],
            #[trigger] scanned(text)[j],
        ) by {
            if i > 0 {
                assert(scanned(text)[i] == scanned(rest)[i - 1]);
                assert(scanned(text)[j] == scanned(rest)[j - 1]);
            } else {
                assert(scanned(text)[j] == scanned(rest)[0]);
            }
        }
    }
}

/// A run is never empty: in the stream of a text that a machine can hold,
/// every shift moves by at least one cell.
pub proof fn lemma_shift_runs_are_never_empty(text: Seq<char>)
    requires
        text.len() <= u64::MAX,
    ensures
        forall|i: int|
            0 <= i < scanned(text).len() ==> match #[trigger] scanned(text)[i] {
                Instruction::ShiftRight(n) => n >= 1,
                Instruction::ShiftLeft(n) => n >= 1,
                _ => true,
            },
    decreases text.len(),
{
    if text.len() > 0 {
        let c = text[0];
        let n = if is_run_symbol(c) {
            run_length(text, c)
        } else {
            1
        };
        lemma_run_length(text, c);
        let rest = text.skip(n as int);
        assert(text.drop_first() == text.skip(1));
        let head = instruction_for(c, n);
        assert(scanned(text) == seq![head] + scanned(rest));
        lemma_shift_runs_are_never_empty(rest);
        assert forall|i: int| 0 <= i < scanned(text).len() implies match #[trigger] scanned(
            text,
        )[i] {
            Instruction::ShiftRight(n) => n >= 1,
            Instruction::ShiftLeft(n) => n >= 1,
            _ => true,
        } by {
            if i > 0 {
                assert(scanned(text)[i] == scanned(rest)[i - 1]);
            }
        }
    }
}

/// A text has no more characters than its encoding has bytes.
proof fn lemma_encoding_is_no_shorter(text: Seq<char>)
    ensures
        text.len() <= encode_utf8(text).len(),
    decreases text.len(),
{
    if text.len() > 0 {
        lemma_encoding_is_no_shorter(text.drop_first());
        assert(encode_scalar(text[0] as u32).len() >= 1);
    }
}

/// How many copies of `symbol` are counted at the start of `text`: the
/// length of the run that the text starts with, where `symbol` is one of the
/// eight symbols, and none for any other character.
pub open spec fn counted(text: Seq<char>, symbol: char) -> nat {
    if is_symbol(symbol) {
        run_length(text, symbol)
    } else {
        0
    }
}

/// How far the scan moves behind a count of `n`: past the run, and past one
/// character where nothing was counted, so that it always moves on.
pub open spec fn advance(n: nat) -> nat {
    if n == 0 {
        1
    } else {
        n
    }
}

/// Counts the run of `match_to` at the start of `test_str`. The first number
/// is the length of the run, the second how far the scan moves on. Where
/// the text does not start with `match_to`, or `match_to` is none of the
/// eight symbols, nothing is counted and the scan moves on by one.
pub fn count_chars_of_type(test_str: &str, match_to: char) -> (r: (u64, u64))
    ensures
        r.0 == counted(test_str@, match_to),
        r.1 == advance(counted(test_str@, match_to)),
{
    if !symbol(match_to) {
        return (0, 1);
    }
    // The encoding is a slice, so its length fits the machine, and the text
    // has no more characters than that.
    let encoded_len: usize = test_str.as_bytes().len();
    proof {
        lemma_encoding_is_no_shorter(test_str@);
    }
    let mut it = test_str.chars();
    let mut count: u64 = 0;
    loop
        invariant
            is_symbol(match_to),
            test_str@.len() <= usize::MAX,
            count + it.remaining().len() <= test_str@.len(),
            run_length(test_str@, match_to) == count + run_length(it.remaining(), match_to),
            it.decrease() is Some,
        decreases it.decrease()->0,
    {
        let next = it.next();
        if next != Some(match_to) {
            // The run has ended. An empty run still moves the scan on.
            return if count == 0 {
                (0, 1)
            } else {
                (count, count)
            };
        }
        count = count + 1;
    }
}

/// Scans a program text into its folded instruction stream. Every text is
/// accepted; whether its brackets match is checked when it is lowered.
pub fn scan(text: &str) -> (stream: Vec<Instruction>)
    ensures
        stream@ == scanned(text@),
{
    let mut stream: Vec<Instruction> = Vec::new();
    let mut it = text.chars();
    loop
        invariant
            scanned(text@) == stream@ + scanned(it.remaining()),
            it.decrease() is Some,
        decreases it.decrease()->0,
    {
        let rest: &str = it.as_str();
        let ghost before = it.decrease();
        match it.next() {
            None => {
                return stream;
            },
            Some(c) => {
                if run_symbol(c) {
                    let (count, advance) = count_chars_of_type(rest, c);
                    proof {
                        lemma_run_length(rest@, c);
                    }
                    stream.push(Instruction::fold(c, count));
                    let mut passed: u64 = 1;
                    while passed < advance
                        invariant
                            1 <= passed <= advance,
                            advance <= rest@.len(),
                            it.remaining() == rest@.skip(passed as int),
                            it.decrease() is Some,
                            decreases_to!(before->0 => it.decrease()->0),
                        decreases advance - passed,
                    {
                        let _ = it.next();
                        passed = passed + 1;
                        assert(rest@.skip(passed - 1).drop_first() == rest@.skip(passed as int));
                    }
                } else {
                    stream.push(Instruction::single(c));
                }
            },
        }
    }
}

} // verus!
