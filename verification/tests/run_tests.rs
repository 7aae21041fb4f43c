use tiny_basic::interpreter::Interpreter;
use tiny_basic::interpreter::SessionOutcome;
use tiny_basic::io::IoBuffer;
use tiny_basic::io::OutputEvent;

const FUEL: usize = 100_000;

fn lines_of(io: &IoBuffer) -> Vec<String> {
    let mut out = Vec::new();
    for ev in io.output.iter() {
        if let OutputEvent::Line(t) = ev {
            out.push(t.clone());
        }
    }
    out
}

fn load(interpreter: &mut Interpreter, io: &mut IoBuffer, program: &[&str]) {
    for line in program.iter() {
        let outcome = interpreter.execute_line(line, io, FUEL);
        assert_eq!(outcome, SessionOutcome::Done);
    }
}

#[test]
fn gosub_return_round_trip() {
    let mut interpreter = Interpreter::new();
    let mut io = IoBuffer::new();
    load(
        &mut interpreter,
        &mut io,
        &[
            "10 GOSUB 40",
            "20 PRINT \"A\"",
            "30 END",
            "40 PRINT \"B\"",
            "50 RETURN",
        ],
    );
    interpreter.execute_line("RUN", &mut io, FUEL);
    assert_eq!(lines_of(&io), vec!["B".to_string(), "A".to_string()]);
}

#[test]
fn goto_skips_forward() {
    let mut interpreter = Interpreter::new();
    let mut io = IoBuffer::new();
    load(
        &mut interpreter,
        &mut io,
        &["10 GOTO 30", "20 PRINT \"SKIPPED\"", "30 PRINT \"HERE\""],
    );
    interpreter.execute_line("RUN", &mut io, FUEL);
    assert_eq!(lines_of(&io), vec!["HERE".to_string()]);
}

#[test]
fn end_stops_the_run_without_a_fault() {
    let mut interpreter = Interpreter::new();
    let mut io = IoBuffer::new();
    load(
        &mut interpreter,
        &mut io,
        &["10 PRINT \"A\"", "20 END", "30 PRINT \"B\""],
    );
    let outcome = interpreter.execute_line("RUN", &mut io, FUEL);
    assert_eq!(outcome, SessionOutcome::Done);
    assert_eq!(lines_of(&io), vec!["A".to_string()]);
}

#[test]
fn an_endless_loop_runs_out_of_steps() {
    let mut interpreter = Interpreter::new();
    let mut io = IoBuffer::new();
    load(&mut interpreter, &mut io, &["10 GOTO 10"]);
    let outcome = interpreter.execute_line("RUN", &mut io, 1_000);
    assert_eq!(outcome, SessionOutcome::OutOfSteps);
}

#[test]
fn run_resets_the_variable_bindings() {
    let mut interpreter = Interpreter::new();
    let mut io = IoBuffer::new();
    load(&mut interpreter, &mut io, &["10 PRINT A"]);
    interpreter.execute_line("LET A = 5", &mut io, FUEL);
    interpreter.execute_line("RUN", &mut io, FUEL);
    assert_eq!(
        lines_of(&io),
        vec!["Undefined variable at line 11: A".to_string()]
    );
}

#[test]
fn a_fault_aborts_the_run() {
    let mut interpreter = Interpreter::new();
    let mut io = IoBuffer::new();
    load(
        &mut interpreter,
        &mut io,
        &["10 PRINT 1 / 0", "20 PRINT \"NEVER\""],
    );
    interpreter.execute_line("RUN", &mut io, FUEL);
    assert_eq!(lines_of(&io), vec!["Invalid operation at line 11".to_string()]);
}

#[test]
fn new_clears_lines_and_bindings() {
    let mut interpreter = Interpreter::new();
    let mut io = IoBuffer::new();
    load(&mut interpreter, &mut io, &["10 PRINT \"X\""]);
    interpreter.execute_line("LET A = 1", &mut io, FUEL);
    interpreter.execute_line("NEW", &mut io, FUEL);
    interpreter.execute_line("LIST", &mut io, FUEL);
    interpreter.execute_line("PRINT A", &mut io, FUEL);
    assert_eq!(
        lines_of(&io),
        vec![
            "".to_string(),
            "Undefined variable at line 0: A".to_string(),
        ]
    );
}

#[test]
fn list_shows_lines_in_ascending_order() {
    let mut interpreter = Interpreter::new();
    let mut io = IoBuffer::new();
    load(&mut interpreter, &mut io, &["20 PRINT \"Y\"", "10 PRINT \"X\""]);
    interpreter.execute_line("LIST", &mut io, FUEL);
    assert_eq!(
        lines_of(&io),
        vec!["10 PRINT \"X\"\n20 PRINT \"Y\"".to_string()]
    );
}

#[test]
fn restoring_a_line_overwrites_it() {
    let mut interpreter = Interpreter::new();
    let mut io = IoBuffer::new();
    load(&mut interpreter, &mut io, &["10 PRINT \"A\"", "10 PRINT \"B\""]);
    interpreter.execute_line("LIST", &mut io, FUEL);
    assert_eq!(lines_of(&io), vec!["10 PRINT \"B\"".to_string()]);
}

#[test]
fn save_then_load_reproduces_the_listing() {
    let mut interpreter = Interpreter::new();
    let mut io = IoBuffer::new();
    load(&mut interpreter, &mut io, &["10 PRINT \"X\"", "20 PRINT \"Y\""]);
    interpreter.execute_line("LIST", &mut io, FUEL);
    interpreter.execute_line("SAVE", &mut io, FUEL);
    let listing_before = lines_of(&io)[0].clone();
    let saved = io
        .output
        .iter()
        .find_map(|ev| match ev {
            OutputEvent::Save(t) => Some(t.clone()),
            _ => None,
        })
        .expect("SAVE should emit the program text");
    assert_eq!(saved, listing_before);

    // a fresh session loads the saved text and lists the same program
    let mut second = Interpreter::new();
    let mut io2 = IoBuffer::new();
    io2.load_text = Some(saved);
    second.execute_line("LOAD", &mut io2, FUEL);
    second.execute_line("LIST", &mut io2, FUEL);
    let after = lines_of(&io2);
    assert_eq!(after, vec!["program loaded".to_string(), listing_before]);
}

#[test]
fn input_binds_queued_lines_in_order() {
    let mut interpreter = Interpreter::new();
    let mut io = IoBuffer::new();
    io.push_input("42".to_string());
    io.push_input("\"HI\"".to_string());
    interpreter.execute_line("INPUT A, B", &mut io, FUEL);
    interpreter.execute_line("PRINT A, B", &mut io, FUEL);
    assert_eq!(
        lines_of(&io),
        vec!["A? 42".to_string(), "B? \"HI\"".to_string(), "42 HI".to_string()]
    );
    assert_eq!(
        io.output
            .iter()
            .filter(|ev| matches!(ev, OutputEvent::Prompt(_)))
            .count(),
        2
    );
}

#[test]
fn input_evaluates_its_response_as_an_expression() {
    let mut interpreter = Interpreter::new();
    let mut io = IoBuffer::new();
    io.push_input("2 + 3 * 4".to_string());
    interpreter.execute_line("INPUT A", &mut io, FUEL);
    interpreter.execute_line("PRINT A", &mut io, FUEL);
    assert_eq!(lines_of(&io), vec!["A? 2 + 3 * 4".to_string(), "14".to_string()]);
}

#[test]
fn input_with_nothing_queued_reports_out_of_input() {
    let mut interpreter = Interpreter::new();
    let mut io = IoBuffer::new();
    let outcome = interpreter.execute_line("INPUT A", &mut io, FUEL);
    assert_eq!(outcome, SessionOutcome::OutOfInput);
}

#[test]
fn malformed_input_response_is_a_wrapped_syntax_fault() {
    let mut interpreter = Interpreter::new();
    let mut io = IoBuffer::new();
    io.push_input("!".to_string());
    interpreter.execute_line("INPUT A", &mut io, FUEL);
    assert_eq!(
        lines_of(&io),
        vec![
            "A? !".to_string(),
            "Syntax error: Unexpected character '!' at position 0".to_string(),
        ]
    );
}

#[test]
fn direct_goto_does_not_start_a_run() {
    let mut interpreter = Interpreter::new();
    let mut io = IoBuffer::new();
    load(&mut interpreter, &mut io, &["10 PRINT \"X\""]);
    interpreter.execute_line("GOTO 10", &mut io, FUEL);
    assert_eq!(lines_of(&io), Vec::<String>::new());
}

#[test]
fn nested_run_restarts_the_program() {
    let mut interpreter = Interpreter::new();
    let mut io = IoBuffer::new();
    load(&mut interpreter, &mut io, &["10 PRINT \"T\"", "20 RUN"]);
    // RUN inside the program restarts it from the top, forever, so the
    // step budget runs out
    let outcome = interpreter.execute_line("RUN", &mut io, 2_000);
    assert_eq!(outcome, SessionOutcome::OutOfSteps);
    assert!(lines_of(&io).len() > 1);
    assert!(lines_of(&io).iter().all(|l| l == "T"));
}

#[test]
fn line_zero_is_a_valid_address() {
    let mut interpreter = Interpreter::new();
    let mut io = IoBuffer::new();
    load(&mut interpreter, &mut io, &["0 PRINT \"Z\"", "1 END"]);
    interpreter.execute_line("RUN", &mut io, FUEL);
    assert_eq!(lines_of(&io), vec!["Z".to_string()]);
}

#[test]
fn the_last_line_of_the_address_space_works() {
    let mut interpreter = Interpreter::new();
    let mut io = IoBuffer::new();
    load(&mut interpreter, &mut io, &["8191 PRINT \"LAST\""]);
    interpreter.execute_line("RUN", &mut io, FUEL);
    assert_eq!(lines_of(&io), vec!["LAST".to_string()]);
}

#[test]
fn the_first_number_past_the_address_space_is_rejected() {
    let mut interpreter = Interpreter::new();
    let mut io = IoBuffer::new();
    interpreter.execute_line("8192 PRINT \"X\"", &mut io, FUEL);
    assert_eq!(
        lines_of(&io),
        vec!["Illegal line number in GOTO or GOSUB statement: 8192".to_string()]
    );
}

#[test]
fn goto_into_empty_space_just_ends_the_run() {
    let mut interpreter = Interpreter::new();
    let mut io = IoBuffer::new();
    load(&mut interpreter, &mut io, &["10 GOTO 8000", "20 PRINT \"NO\""]);
    let outcome = interpreter.execute_line("RUN", &mut io, FUEL);
    assert_eq!(outcome, SessionOutcome::Done);
    assert_eq!(lines_of(&io), Vec::<String>::new());
}

#[test]
fn print_without_arguments_is_a_syntax_fault() {
    let mut interpreter = Interpreter::new();
    let mut io = IoBuffer::new();
    interpreter.execute_line("PRINT", &mut io, FUEL);
    let lines = lines_of(&io);
    assert_eq!(lines.len(), 1);
    assert!(lines[0].starts_with("Unexpected token at position"));
}

#[test]
fn parenthesized_groups_evaluate_first() {
    let mut interpreter = Interpreter::new();
    let mut io = IoBuffer::new();
    interpreter.execute_line("PRINT (2 + 3) * 4 - 4", &mut io, FUEL);
    // the repair treats a parenthesized group like any binary subtree, so
    // the product rotates below the subtraction
    assert_eq!(lines_of(&io), vec!["16".to_string()]);
}
