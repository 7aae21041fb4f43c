use tiny_basic::ast::Line;
use tiny_basic::ast::Statement;
use tiny_basic::program::MAX_LINES;
use tiny_basic::program::Program;

fn stored_line(number: usize, text: &str) -> Line {
    Line {
        number: Some(number),
        statement: Statement::RemStatement,
        source: text.to_string(),
    }
}

#[test]
fn get_returns_what_was_stored() {
    let mut program = Program::new();
    program.set(stored_line(10, "10 REM A"));
    let got = program.get(10).unwrap();
    assert_eq!(got.number, Some(10));
    assert_eq!(got.source, "10 REM A");
    assert!(program.get(11).is_none());
}

#[test]
fn out_of_range_lookup_is_none_not_a_fault() {
    let program = Program::new();
    assert!(program.get(MAX_LINES).is_none());
    assert!(program.get(usize::MAX).is_none());
}

#[test]
fn storing_twice_overwrites_never_appends() {
    let mut program = Program::new();
    program.set(stored_line(10, "10 PRINT \"A\""));
    program.set(stored_line(10, "10 PRINT \"B\""));
    let listed = program.iter();
    assert_eq!(listed.len(), 1);
    assert_eq!(listed[0].source, "10 PRINT \"B\"");
    assert_eq!(program.get(10).unwrap().source, "10 PRINT \"B\"");
}

#[test]
fn listing_is_ascending_whatever_the_entry_order() {
    let mut forward = Program::new();
    forward.set(stored_line(10, "10 PRINT \"X\""));
    forward.set(stored_line(20, "20 PRINT \"Y\""));

    let mut backward = Program::new();
    backward.set(stored_line(20, "20 PRINT \"Y\""));
    backward.set(stored_line(10, "10 PRINT \"X\""));

    let expected = "10 PRINT \"X\"\n20 PRINT \"Y\"";
    assert_eq!(forward.print(), expected);
    assert_eq!(backward.print(), expected);
}

#[test]
fn print_trims_line_text() {
    let mut program = Program::new();
    program.set(stored_line(10, "10 REM A \n"));
    assert_eq!(program.print(), "10 REM A");
}

#[test]
fn clear_empties_every_slot() {
    let mut program = Program::new();
    program.set(stored_line(10, "10 REM"));
    program.clear();
    assert!(program.get(10).is_none());
    assert_eq!(program.iter().len(), 0);
    assert_eq!(program.print(), "");
}
