use tiny_basic::interpreter::Interpreter;
use tiny_basic::interpreter::SessionOutcome;
use tiny_basic::io::IoBuffer;
use tiny_basic::io::OutputEvent;

const FUEL: usize = 100_000;

fn submit(interpreter: &mut Interpreter, io: &mut IoBuffer, source: &str) -> SessionOutcome {
    interpreter.execute_line(source, io, FUEL)
}

fn lines_of(io: &IoBuffer) -> Vec<String> {
    let mut out = Vec::new();
    for ev in io.output.iter() {
        if let OutputEvent::Line(t) = ev {
            out.push(t.clone());
        }
    }
    out
}

#[test]
fn arithmetic_respects_precedence() {
    let mut interpreter = Interpreter::new();
    let mut io = IoBuffer::new();
    submit(&mut interpreter, &mut io, "PRINT 2 + 3 * 4");
    assert_eq!(lines_of(&io), vec!["14".to_string()]);
}

#[test]
fn rotated_precedence_on_the_left() {
    let mut interpreter = Interpreter::new();
    let mut io = IoBuffer::new();
    submit(&mut interpreter, &mut io, "PRINT 2 * 3 + 4");
    assert_eq!(lines_of(&io), vec!["10".to_string()]);
}

#[test]
fn four_operators_match_standard_arithmetic() {
    let mut interpreter = Interpreter::new();
    let mut io = IoBuffer::new();
    submit(&mut interpreter, &mut io, "PRINT 7 + 2, 7 - 2, 7 * 2, 7 / 2");
    assert_eq!(lines_of(&io), vec!["9 5 14 3".to_string()]);
}

#[test]
fn unary_minus_negates() {
    let mut interpreter = Interpreter::new();
    let mut io = IoBuffer::new();
    submit(&mut interpreter, &mut io, "PRINT -5 + 2");
    assert_eq!(lines_of(&io), vec!["-3".to_string()]);
}

#[test]
fn text_concatenation_joins() {
    let mut interpreter = Interpreter::new();
    let mut io = IoBuffer::new();
    submit(&mut interpreter, &mut io, "PRINT \"AB\" + \"CD\"");
    assert_eq!(lines_of(&io), vec!["ABCD".to_string()]);
}

#[test]
fn text_plus_number_is_an_invalid_operation() {
    let mut interpreter = Interpreter::new();
    let mut io = IoBuffer::new();
    submit(&mut interpreter, &mut io, "PRINT \"AB\" + 3");
    assert_eq!(lines_of(&io), vec!["Invalid operation at line 0".to_string()]);
}

#[test]
fn number_minus_text_is_an_invalid_operation() {
    let mut interpreter = Interpreter::new();
    let mut io = IoBuffer::new();
    submit(&mut interpreter, &mut io, "PRINT 3 - \"AB\"");
    assert_eq!(lines_of(&io), vec!["Invalid operation at line 0".to_string()]);
}

#[test]
fn text_minus_text_is_an_invalid_operation() {
    let mut interpreter = Interpreter::new();
    let mut io = IoBuffer::new();
    submit(&mut interpreter, &mut io, "PRINT \"AB\" - \"CD\"");
    assert_eq!(lines_of(&io), vec!["Invalid operation at line 0".to_string()]);
}

#[test]
fn division_by_zero_is_a_fault() {
    let mut interpreter = Interpreter::new();
    let mut io = IoBuffer::new();
    submit(&mut interpreter, &mut io, "PRINT 1 / 0");
    assert_eq!(lines_of(&io), vec!["Invalid operation at line 0".to_string()]);
}

#[test]
fn undefined_variable_is_a_fault() {
    let mut interpreter = Interpreter::new();
    let mut io = IoBuffer::new();
    submit(&mut interpreter, &mut io, "PRINT Z");
    assert_eq!(
        lines_of(&io),
        vec!["Undefined variable at line 0: Z".to_string()]
    );
}

#[test]
fn assignment_binds_and_rebinds() {
    let mut interpreter = Interpreter::new();
    let mut io = IoBuffer::new();
    submit(&mut interpreter, &mut io, "LET A = 4");
    submit(&mut interpreter, &mut io, "PRINT A");
    submit(&mut interpreter, &mut io, "LET A = A + 1");
    submit(&mut interpreter, &mut io, "PRINT A");
    assert_eq!(lines_of(&io), vec!["4".to_string(), "5".to_string()]);
}

#[test]
fn if_true_runs_the_nested_statement() {
    let mut interpreter = Interpreter::new();
    let mut io = IoBuffer::new();
    submit(&mut interpreter, &mut io, "IF 1 <= 2 THEN PRINT \"YES\"");
    assert_eq!(lines_of(&io), vec!["YES".to_string()]);
}

#[test]
fn if_false_has_no_side_effects() {
    let mut interpreter = Interpreter::new();
    let mut io = IoBuffer::new();
    submit(&mut interpreter, &mut io, "IF 1 > 2 THEN PRINT \"NO\"");
    assert_eq!(io.output, Vec::<OutputEvent>::new());
}

#[test]
fn if_false_does_not_assign_either() {
    let mut interpreter = Interpreter::new();
    let mut io = IoBuffer::new();
    submit(&mut interpreter, &mut io, "IF 1 = 2 THEN LET A = 7");
    submit(&mut interpreter, &mut io, "PRINT A");
    assert_eq!(
        lines_of(&io),
        vec!["Undefined variable at line 0: A".to_string()]
    );
}

#[test]
fn if_on_text_operands_is_a_fault() {
    let mut interpreter = Interpreter::new();
    let mut io = IoBuffer::new();
    submit(&mut interpreter, &mut io, "IF \"A\" = \"A\" THEN PRINT 1");
    assert_eq!(lines_of(&io), vec!["Invalid operation at line 0".to_string()]);
}

#[test]
fn goto_with_a_text_target_is_an_illegal_line_number() {
    let mut interpreter = Interpreter::new();
    let mut io = IoBuffer::new();
    submit(&mut interpreter, &mut io, "GOTO \"ABC\"");
    assert_eq!(
        lines_of(&io),
        vec!["Illegal line number in GOTO or GOSUB statement: ABC".to_string()]
    );
}

#[test]
fn goto_outside_the_address_space_is_an_illegal_line_number() {
    let mut interpreter = Interpreter::new();
    let mut io = IoBuffer::new();
    submit(&mut interpreter, &mut io, "GOTO 0 - 5");
    assert_eq!(
        lines_of(&io),
        vec!["Illegal line number in GOTO or GOSUB statement: -5".to_string()]
    );
}

#[test]
fn storing_a_line_outside_the_address_space_is_a_fault() {
    let mut interpreter = Interpreter::new();
    let mut io = IoBuffer::new();
    submit(&mut interpreter, &mut io, "99999 PRINT \"X\"");
    assert_eq!(
        lines_of(&io),
        vec!["Illegal line number in GOTO or GOSUB statement: 99999".to_string()]
    );
}

#[test]
fn return_with_an_empty_stack_does_nothing() {
    let mut interpreter = Interpreter::new();
    let mut io = IoBuffer::new();
    submit(&mut interpreter, &mut io, "NEW");
    let outcome = submit(&mut interpreter, &mut io, "RETURN");
    assert_eq!(outcome, SessionOutcome::Done);
    assert_eq!(io.output, Vec::<OutputEvent>::new());
}

#[test]
fn help_lists_the_statement_forms() {
    let mut interpreter = Interpreter::new();
    let mut io = IoBuffer::new();
    submit(&mut interpreter, &mut io, "HELP");
    let lines = lines_of(&io);
    assert_eq!(lines.len(), 1);
    assert!(lines[0].starts_with("PRINT <expression>"));
    assert!(lines[0].contains("GOSUB <line>"));
}

#[test]
fn cls_asks_the_host_to_clear_the_screen() {
    let mut interpreter = Interpreter::new();
    let mut io = IoBuffer::new();
    submit(&mut interpreter, &mut io, "CLS");
    assert_eq!(io.output, vec![OutputEvent::ClearScreen]);
}

#[test]
fn parse_fault_is_reported_and_the_session_goes_on() {
    let mut interpreter = Interpreter::new();
    let mut io = IoBuffer::new();
    submit(&mut interpreter, &mut io, "PRINT !");
    submit(&mut interpreter, &mut io, "PRINT 1");
    assert_eq!(
        lines_of(&io),
        vec![
            "Unexpected character '!' at position 6".to_string(),
            "1".to_string(),
        ]
    );
}

#[test]
fn large_literals_saturate_into_a_fault_not_a_crash() {
    let mut interpreter = Interpreter::new();
    let mut io = IoBuffer::new();
    submit(&mut interpreter, &mut io, "PRINT 9223372036854775807 + 1");
    assert_eq!(lines_of(&io), vec!["Invalid operation at line 0".to_string()]);
}

#[test]
fn unary_minus_on_text_is_a_fault() {
    let mut interpreter = Interpreter::new();
    let mut io = IoBuffer::new();
    submit(&mut interpreter, &mut io, "PRINT -\"A\"");
    assert_eq!(lines_of(&io), vec!["Invalid operation at line 0".to_string()]);
}

#[test]
fn unary_plus_is_the_identity() {
    let mut interpreter = Interpreter::new();
    let mut io = IoBuffer::new();
    submit(&mut interpreter, &mut io, "PRINT +7");
    assert_eq!(lines_of(&io), vec!["7".to_string()]);
}

#[test]
fn negative_results_render_with_a_sign() {
    let mut interpreter = Interpreter::new();
    let mut io = IoBuffer::new();
    submit(&mut interpreter, &mut io, "PRINT 3 - 5 * 2");
    assert_eq!(lines_of(&io), vec!["-7".to_string()]);
}

#[test]
fn print_joins_values_with_single_spaces() {
    let mut interpreter = Interpreter::new();
    let mut io = IoBuffer::new();
    submit(&mut interpreter, &mut io, "PRINT \"A\", 1, \"B\"");
    assert_eq!(lines_of(&io), vec!["A 1 B".to_string()]);
}
