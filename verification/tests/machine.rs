use bf_compiler::codegen::lower;
use bf_compiler::machine::{narrow, run, Execution, END_OF_INPUT};
use bf_compiler::scanner::scan;
use bf_compiler::{Instruction, OutputMode};

fn execute(text: &str, input: &[u8]) -> Execution {
    let function = lower(&scan(text), OutputMode::Execute).unwrap();
    run(&function, &input.to_vec(), 1_000_000)
}

#[test]
fn narrowing_keeps_the_low_byte() {
    assert_eq!(narrow(0), 0);
    assert_eq!(narrow(65), 65);
    assert_eq!(narrow(255), 255);
    assert_eq!(narrow(256), 0);
    assert_eq!(narrow(0x1234), 0x34);
    assert_eq!(narrow(END_OF_INPUT), 255);
    assert_eq!(narrow(-256), 0);
    assert_eq!(narrow(i32::MIN), 0);
    assert_eq!(narrow(i32::MAX), 255);
}

#[test]
fn an_empty_program_returns_a_blank_tape() {
    let e = execute("", &[]);
    assert!(e.finished);
    assert!(!e.released);
    assert_eq!(e.tape.pointer(), 0);
    assert_eq!(e.tape.current(), 0);
    assert_eq!(e.output, vec![]);
    assert_eq!(e.consumed, 0);
}

#[test]
fn cell_wraparound() {
    let e = execute(&"+".repeat(256), &[]);
    assert!(e.finished);
    assert_eq!(e.tape.current(), 0);
    let e = execute(&format!("{}-", "+".repeat(255)), &[]);
    assert_eq!(e.tape.current(), 254);
    let e = execute("-", &[]);
    assert_eq!(e.tape.current(), 255);
}

#[test]
fn pointer_wraparound() {
    let e = execute(&">".repeat(65535), &[]);
    assert_eq!(e.tape.pointer(), 0);
    let e = execute(&">".repeat(65536), &[]);
    assert_eq!(e.tape.pointer(), 1);
    assert_eq!(e.tape.pointer(), execute(">", &[]).tape.pointer());
    let e = execute(&format!("+>{}", ">".repeat(65534)), &[]);
    assert_eq!(e.tape.pointer(), 0);
    assert_eq!(e.tape.current(), 1);
    let e = execute("<+", &[]);
    assert_eq!(e.tape.pointer(), 65534);
    assert_eq!(e.tape.cell(65534), Some(1));
}

#[test]
fn split_runs_move_like_one_run() {
    let split = execute(&format!("{} {}", ">".repeat(40000), ">".repeat(40000)), &[]);
    let whole = execute(&">".repeat(80000), &[]);
    assert_eq!(split.tape.pointer(), 14465);
    assert_eq!(whole.tape.pointer(), 14465);
}

#[test]
fn loop_termination() {
    let e = execute("+[-]", &[]);
    assert!(e.finished);
    assert_eq!(e.tape.current(), 0);
    let e = execute("+++++[-]", &[]);
    assert!(e.finished);
    assert_eq!(e.tape.current(), 0);
}

#[test]
fn a_countdown_ends_within_its_count_and_two() {
    for n in [0u64, 1, 3, 200, 255] {
        let text = format!("{}[-]", "+".repeat(n as usize));
        let function = lower(&scan(&text), OutputMode::Execute).unwrap();
        let e = run(&function, &vec![], n + 2);
        assert!(e.finished, "{}", n);
        assert_eq!(e.tape.current(), 0);
        assert_eq!(e.tape.pointer(), 0);
        let e = run(&function, &vec![], n + 1);
        assert!(!e.finished, "{}", n);
    }
}

#[test]
fn a_loop_on_a_zero_cell_is_skipped() {
    let e = execute("[+.]", &[]);
    assert!(e.finished);
    assert_eq!(e.tape.current(), 0);
    assert_eq!(e.output, vec![]);
}

#[test]
fn a_loop_runs_while_the_cell_is_not_zero() {
    let e = execute("+++[>++<-]>.", &[]);
    assert!(e.finished);
    assert_eq!(e.output, vec![6]);
    assert_eq!(e.tape.cell(0), Some(0));
    assert_eq!(e.tape.cell(1), Some(6));
}

#[test]
fn the_loop_test_reads_the_cell_under_the_moved_pointer() {
    let e = execute("+>++<[>]", &[]);
    assert!(e.finished);
    assert_eq!(e.tape.pointer(), 2);
}

#[test]
fn end_to_end_output() {
    let e = execute("+++.", &[]);
    assert!(e.finished);
    assert_eq!(e.output, vec![3]);
    let e = execute(&format!("{}.{}.", "+".repeat(72), "+".repeat(29)), &[]);
    assert!(e.finished);
    assert_eq!(e.output, vec![72, 101]);
    let e = execute(&format!(">>+<<{}.>[-]<{}.", "+".repeat(72), "+".repeat(29)), &[]);
    assert_eq!(e.output, vec![72, 101]);
}

#[test]
fn the_second_output_is_the_sum_modulo_256() {
    for (a, b) in [(0usize, 0usize), (3, 4), (72, 29), (200, 100), (255, 255)] {
        let text = format!("{}.{}.", "+".repeat(a), "+".repeat(b));
        let e = execute(&text, &[]);
        assert!(e.finished);
        assert_eq!(e.output, vec![a as i32, ((a + b) % 256) as i32]);
    }
}

#[test]
fn output_is_widened_without_sign() {
    let e = execute("-.", &[]);
    assert_eq!(e.output, vec![255]);
}

#[test]
fn input_is_stored_byte_by_byte() {
    let e = execute(",.>,.", &[65, 200]);
    assert!(e.finished);
    assert_eq!(e.output, vec![65, 200]);
    assert_eq!(e.consumed, 2);
    assert_eq!(e.tape.cell(0), Some(65));
    assert_eq!(e.tape.cell(1), Some(200));
}

#[test]
fn exhausted_input_stores_the_narrowed_sentinel() {
    let e = execute(",", &[]);
    assert_eq!(e.tape.current(), 255);
    assert_eq!(e.consumed, 0);
    let e = execute(",>,>,", &[1]);
    assert_eq!(e.tape.cell(0), Some(1));
    assert_eq!(e.tape.cell(1), Some(255));
    assert_eq!(e.tape.cell(2), Some(255));
    assert_eq!(e.consumed, 1);
}

#[test]
fn fuel_bounds_a_run() {
    let function = lower(&scan("+[]"), OutputMode::Execute).unwrap();
    let e = run(&function, &vec![], 1000);
    assert!(!e.finished);
    assert!(!e.released);
    assert_eq!(e.tape.current(), 1);
    let e = run(&function, &vec![], 0);
    assert!(!e.finished);
    assert_eq!(e.tape.current(), 0);
}

#[test]
fn each_block_costs_one_unit_of_fuel() {
    let function = lower(&scan("++[-]"), OutputMode::Execute).unwrap();
    assert!(!run(&function, &vec![], 3).finished);
    assert!(run(&function, &vec![], 4).finished);
}

#[test]
fn a_function_for_an_object_file_releases_its_tape() {
    let function = lower(&scan("+."), OutputMode::Emit).unwrap();
    let e = run(&function, &vec![], 10);
    assert!(e.finished);
    assert!(e.released);
    assert_eq!(e.output, vec![1]);
}

/// The classic way to run a program: walk the instructions and jump between
/// matching brackets.
fn interpret(stream: &[Instruction], input: &[u8]) -> (Vec<u8>, usize, Vec<i32>, usize) {
    let mut cells = vec![0u8; 65535];
    let mut pointer = 0usize;
    let mut output = Vec::new();
    let mut consumed = 0usize;
    let mut pc = 0usize;
    while pc < stream.len() {
        match stream[pc] {
            Instruction::AddCell(n) => cells[pointer] = cells[pointer].wrapping_add(n),
            Instruction::SubCell(n) => cells[pointer] = cells[pointer].wrapping_sub(n),
            Instruction::ShiftRight(n) => pointer = ((pointer as u64 + n % 65535) % 65535) as usize,
            Instruction::ShiftLeft(n) => {
                pointer = ((pointer as u64 + 65535 - n % 65535) % 65535) as usize
            }
            Instruction::Output => output.push(cells[pointer] as i32),
            Instruction::Input => {
                if consumed < input.len() {
                    cells[pointer] = input[consumed];
                    consumed += 1;
                } else {
                    cells[pointer] = 255;
                }
            }
            Instruction::Skip => {}
            Instruction::LoopStart => {
                if cells[pointer] == 0 {
                    let mut depth = 1;
                    while depth > 0 {
                        pc += 1;
                        match stream[pc] {
                            Instruction::LoopStart => depth += 1,
                            Instruction::LoopEnd => depth -= 1,
                            _ => {}
                        }
                    }
                }
            }
            Instruction::LoopEnd => {
                if cells[pointer] != 0 {
                    let mut depth = 1;
                    while depth > 0 {
                        pc -= 1;
                        match stream[pc] {
                            Instruction::LoopEnd => depth += 1,
                            Instruction::LoopStart => depth -= 1,
                            _ => {}
                        }
                    }
                }
            }
        }
        pc += 1;
    }
    (cells, pointer, output, consumed)
}

#[test]
fn the_compiled_function_runs_as_the_stream_is_meant() {
    let hello = "++++++++[>++++[>++>+++>+++>+<<<<-]>+>+>->>+[<]<-]>>.>---.+++++++..+++.>>.<-.<.+++.------.--------.>>+.>++.";
    let programs: [(&str, &[u8]); 9] = [
        ("", &[]),
        ("+++[>++<-]>.", &[]),
        (hello, &[]),
        (",[.,]", &[104, 105, 0]),
        (",>,<[->+<]>.", &[20, 22]),
        ("<<+[>>]<-.", &[]),
        ("+[[-]>+<]>.", &[]),
        ("a+b[c>d+e<f-g]h", &[]),
        ("++[>+++[>++<-]<-]>>.[-].,.", &[]),
    ];
    for (text, input) in programs {
        let stream = scan(text);
        let (cells, pointer, output, consumed) = interpret(&stream, input);
        let e = execute(text, input);
        assert!(e.finished, "{}", text);
        assert_eq!(e.output, output, "{}", text);
        assert_eq!(e.consumed, consumed, "{}", text);
        assert_eq!(e.tape.pointer(), pointer, "{}", text);
        for at in [0usize, 1, 2, 3, 4, 5, 6, 65533, 65534] {
            assert_eq!(e.tape.cell(at), Some(cells[at]), "{} at {}", text, at);
        }
    }
}

#[test]
fn hello_world_is_printed() {
    let hello = "++++++++[>++++[>++>+++>+++>+<<<<-]>+>+>->>+[<]<-]>>.>---.+++++++..+++.>>.<-.<.+++.------.--------.>>+.>++.";
    let e = execute(hello, &[]);
    let text: String = e.output.iter().map(|v| *v as u8 as char).collect();
    assert_eq!(text, "Hello World!\n");
}

#[test]
fn the_first_outputs_do_not_depend_on_what_follows() {
    let front = format!("{}.{}.", "+".repeat(72), "+".repeat(29));
    let rests = [
        "",
        "+",
        ".",
        "+++.",
        "[-]",
        "[.-]",
        ">>,[.,]<<",
        "[>+<-]>.",
        "x y z",
        "<<<<----....",
        "[[-]>[-]<]",
    ];
    for rest in rests {
        let text = format!("{}{}", front, rest);
        let function = lower(&scan(&text), OutputMode::Execute).unwrap();
        for fuel in [1u64, 2, 5, 1000] {
            let e = run(&function, &vec![1, 2, 3], fuel);
            assert!(e.output.len() >= 2, "{} with fuel {}", rest, fuel);
            assert_eq!(e.output[0], 72, "{} with fuel {}", rest, fuel);
            assert_eq!(e.output[1], 101, "{} with fuel {}", rest, fuel);
        }
        assert_eq!(run(&function, &vec![], 0).output, vec![]);
    }
}

#[test]
fn the_first_outputs_wrap_with_their_counts() {
    let text = format!("{}.{}.[-]", "+".repeat(300), "+".repeat(250));
    let e = execute(&text, &[]);
    assert_eq!(e.output, vec![44, 38]);
}

/// The compiled function of a stream, run on the reference machine.
fn executed(stream: &[Instruction], input: &[u8]) -> Execution {
    let function = lower(&stream.to_vec(), OutputMode::Execute).unwrap();
    run(&function, &input.to_vec(), 100_000)
}

fn same_run(a: &Execution, b: &Execution) {
    assert_eq!(a.finished, b.finished);
    assert_eq!(a.output, b.output);
    assert_eq!(a.consumed, b.consumed);
    assert_eq!(a.tape.pointer(), b.tape.pointer());
    for at in [0usize, 1, 2, 3, 4, 5, 255, 256, 65533, 65534] {
        assert_eq!(a.tape.cell(at), b.tape.cell(at), "cell {}", at);
    }
}

#[test]
fn folding_keeps_the_behaviour() {
    let long = format!("{}[>{}<-]>.", "+".repeat(300), "+".repeat(513));
    let texts = [
        "",
        "+++[>++<-]>.",
        ",[.,]",
        "++ ++\n--x-",
        ">>>><<<<<<+.",
        "+[[-]>+<]>.",
        long.as_str(),
    ];
    for text in texts {
        let unit: Vec<Instruction> = text.chars().map(Instruction::single).collect();
        same_run(&executed(&scan(text), &[9, 8, 0]), &executed(&unit, &[9, 8, 0]));
    }
}

#[test]
fn other_characters_change_nothing() {
    let texts = ["+ +.", "a+b+c[d-e]f.", "+\n+\n[ - > + < ] > .", "++ -- >> << ..", "[ ]"];
    for text in texts {
        let symbols: String = text.chars().filter(|c| "+-<>[],.".contains(*c)).collect();
        same_run(&executed(&scan(text), &[]), &executed(&scan(&symbols), &[]));
    }
    assert_eq!(scan("+ +").len(), 3);
    assert_eq!(scan("++").len(), 1);
}

#[test]
fn bracket_errors_are_the_same_character_by_character() {
    for text in ["]", "[", "++]", "[--", "][", "+ [ + ] ]"] {
        let unit: Vec<Instruction> = text.chars().map(Instruction::single).collect();
        assert_eq!(
            lower(&scan(text), OutputMode::Execute).err(),
            lower(&unit, OutputMode::Execute).err(),
            "{}",
            text
        );
    }
}
