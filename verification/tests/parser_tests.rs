use tiny_basic::ast::ArithmeticOperator;
use tiny_basic::ast::BinaryExpression;
use tiny_basic::ast::Expression;
use tiny_basic::ast::Identifier;
use tiny_basic::ast::Literal;
use tiny_basic::ast::RelationOperator;
use tiny_basic::ast::Statement;
use tiny_basic::ast::UnaryOperator;
use tiny_basic::errors::SyntaxError;
use tiny_basic::parser::Parser;

fn number(value: usize) -> Expression {
    Expression::Literal(Literal::Number { value })
}

fn binary(op: ArithmeticOperator, left: Expression, right: Expression) -> Expression {
    Expression::BinaryExpression(BinaryExpression {
        operator: op,
        left: Box::new(left),
        right: Box::new(right),
    })
}

#[test]
fn multiplication_binds_tighter_on_the_right() {
    let mut parser = Parser::new("2 + 3 * 4");
    let e = parser.parse_expression().unwrap();
    assert_eq!(
        e,
        binary(
            ArithmeticOperator::Add,
            number(2),
            binary(ArithmeticOperator::Multiply, number(3), number(4)),
        )
    );
}

#[test]
fn multiplication_binds_tighter_on_the_left() {
    let mut parser = Parser::new("2 * 3 + 4");
    let e = parser.parse_expression().unwrap();
    // the precedence repair rotates the right-leaning parse
    assert_eq!(
        e,
        binary(
            ArithmeticOperator::Add,
            binary(ArithmeticOperator::Multiply, number(2), number(3)),
            number(4),
        )
    );
}

#[test]
fn equal_precedence_leans_right() {
    let mut parser = Parser::new("2 - 3 - 4");
    let e = parser.parse_expression().unwrap();
    assert_eq!(
        e,
        binary(
            ArithmeticOperator::Subtract,
            number(2),
            binary(ArithmeticOperator::Subtract, number(3), number(4)),
        )
    );
}

#[test]
fn unary_sign_before_literal() {
    let mut parser = Parser::new("-5");
    let e = parser.parse_expression().unwrap();
    match e {
        Expression::UnaryExpression(u) => {
            assert_eq!(u.operator, Some(UnaryOperator::Minus));
            assert_eq!(*u.argument, number(5));
        }
        other => panic!("expected a signed term, got {:?}", other),
    }
}

#[test]
fn parenthesized_expression() {
    let mut parser = Parser::new("(2 + 3)");
    let e = parser.parse_expression().unwrap();
    assert_eq!(e, binary(ArithmeticOperator::Add, number(2), number(3)));
}

#[test]
fn string_literal_expression() {
    let mut parser = Parser::new("\"AB\"");
    let e = parser.parse_expression().unwrap();
    assert_eq!(
        e,
        Expression::Literal(Literal::Text { value: "AB".to_string() })
    );
}

#[test]
fn identifier_expression() {
    let mut parser = Parser::new("X");
    let e = parser.parse_expression().unwrap();
    assert_eq!(e, Expression::Identifier(Identifier { name: "X".to_string() }));
}

#[test]
fn print_statement_with_expression_list() {
    let mut parser = Parser::new("PRINT 1, 2, 3");
    let lines = parser.parse().unwrap();
    assert_eq!(lines.len(), 1);
    assert_eq!(lines[0].number, None);
    match &lines[0].statement {
        Statement::PrintStatement { expressions } => assert_eq!(expressions.len(), 3),
        other => panic!("expected PRINT, got {:?}", other),
    }
}

#[test]
fn input_statement_with_identifier_list() {
    let mut parser = Parser::new("INPUT A, B");
    let lines = parser.parse().unwrap();
    match &lines[0].statement {
        Statement::InputStatement { variables } => {
            assert_eq!(variables.len(), 2);
            assert_eq!(variables[0].name, "A");
            assert_eq!(variables[1].name, "B");
        }
        other => panic!("expected INPUT, got {:?}", other),
    }
}

#[test]
fn if_statement_shape() {
    let mut parser = Parser::new("IF X >= 3 THEN PRINT \"Y\"");
    let lines = parser.parse().unwrap();
    match &lines[0].statement {
        Statement::IfStatement { condition, then_branch } => {
            assert_eq!(condition.operator, RelationOperator::GreaterThanOrEqual);
            match &**then_branch {
                Statement::PrintStatement { expressions } => assert_eq!(expressions.len(), 1),
                other => panic!("expected a nested PRINT, got {:?}", other),
            }
        }
        other => panic!("expected IF, got {:?}", other),
    }
}

#[test]
fn let_statement_binds_one_character_name() {
    let mut parser = Parser::new("LET A = 4");
    let lines = parser.parse().unwrap();
    match &lines[0].statement {
        Statement::VarStatement { declaration } => {
            assert_eq!(declaration.name, "A");
            assert_eq!(declaration.value, number(4));
        }
        other => panic!("expected LET, got {:?}", other),
    }
}

#[test]
fn let_statement_rejects_long_names() {
    let mut parser = Parser::new("LET AB = 4");
    match parser.parse() {
        Err(SyntaxError::InvalidVariableName(name, pos)) => {
            assert_eq!(name, "AB");
            assert_eq!(pos, 4);
        }
        other => panic!("expected an invalid-variable-name fault, got {:?}", other),
    }
}

#[test]
fn unknown_keyword_fault() {
    let mut parser = Parser::new("FROBNICATE 1");
    match parser.parse() {
        Err(SyntaxError::UnexpectedIdentifier(name, pos)) => {
            assert_eq!(name, "FROBNICATE");
            assert_eq!(pos, 0);
        }
        other => panic!("expected an unexpected-identifier fault, got {:?}", other),
    }
}

#[test]
fn keyword_statements_parse() {
    let sources = [
        ("NEW", Statement::NewStatement),
        ("RUN", Statement::RunStatement),
        ("LIST", Statement::ListStatement),
        ("CLS", Statement::ClsStatement),
        ("RETURN", Statement::ReturnStatement),
        ("END", Statement::EndStatement),
        ("HELP", Statement::HelpStatement),
        ("LOAD", Statement::LoadStatement),
        ("SAVE", Statement::SaveStatement),
    ];
    for (src, expected) in sources.iter() {
        let mut parser = Parser::new(*src);
        let lines = parser.parse().unwrap();
        assert_eq!(&lines[0].statement, expected);
    }
}

#[test]
fn rem_discards_to_end_of_line() {
    let mut parser = Parser::new("REM 1 + SOME WORDS 7\nPRINT 1");
    let lines = parser.parse().unwrap();
    assert_eq!(lines.len(), 2);
    assert_eq!(lines[0].statement, Statement::RemStatement);
}

#[test]
fn numbered_lines_are_kept_with_their_numbers_and_text() {
    let mut parser = Parser::new("10 PRINT \"X\"\n20 PRINT \"Y\"");
    let lines = parser.parse().unwrap();
    assert_eq!(lines.len(), 2);
    assert_eq!(lines[0].number, Some(10));
    assert_eq!(lines[1].number, Some(20));
    assert!(lines[0].source.starts_with("10 PRINT \"X\""));
    assert!(lines[1].source.starts_with("20 PRINT \"Y\""));
}

#[test]
fn blank_lines_are_skipped() {
    let mut parser = Parser::new("\n\n10 END\n\n");
    let lines = parser.parse().unwrap();
    assert_eq!(lines.len(), 1);
    assert_eq!(lines[0].number, Some(10));
}

#[test]
fn goto_and_gosub_take_expressions() {
    let mut parser = Parser::new("GOTO 10 + 5");
    let lines = parser.parse().unwrap();
    match &lines[0].statement {
        Statement::GoToStatement { location } => {
            assert_eq!(
                location,
                &binary(ArithmeticOperator::Add, number(10), number(5))
            );
        }
        other => panic!("expected GOTO, got {:?}", other),
    }
    let mut parser = Parser::new("GOSUB 40");
    let lines = parser.parse().unwrap();
    match &lines[0].statement {
        Statement::GoSubStatement { location } => assert_eq!(location, &number(40)),
        other => panic!("expected GOSUB, got {:?}", other),
    }
}

#[test]
fn missing_then_is_an_unexpected_token() {
    let mut parser = Parser::new("IF 1 = 1 PRINT 2");
    match parser.parse() {
        Err(SyntaxError::UnexpectedToken(tok)) => assert_eq!(tok.span.start, 9),
        other => panic!("expected an unexpected-token fault, got {:?}", other),
    }
}

#[test]
fn fault_aborts_the_whole_submission() {
    let mut parser = Parser::new("10 PRINT \"A\"\n20 FROB");
    assert!(parser.parse().is_err());
}
