use tiny_basic::errors::SyntaxError;
use tiny_basic::lexer::Lexer;
use tiny_basic::lexer::Span;
use tiny_basic::lexer::Token;
use tiny_basic::lexer::TokenKind;
use tiny_basic::lexer::TokenValue;

#[test]
fn number_literal_token() {
    let mut lexer = Lexer::new("10 ");
    let tok = lexer.next().unwrap();
    assert_eq!(
        tok,
        Token {
            kind: TokenKind::NumberLiteral,
            span: Span { start: 0, end: 2 },
            value: TokenValue::Digit(10),
        }
    );
}

#[test]
fn identifier_token() {
    let mut lexer = Lexer::new("PRINT");
    let tok = lexer.next().unwrap();
    assert_eq!(tok.kind, TokenKind::Identifier);
    assert_eq!(tok.value, TokenValue::Text("PRINT".to_string()));
    assert_eq!(tok.span, Span { start: 0, end: 5 });
}

#[test]
fn string_literal_token_content_between_quotes() {
    let mut lexer = Lexer::new("\"HELLO\"");
    let tok = lexer.next().unwrap();
    assert_eq!(tok.kind, TokenKind::StringLiteral);
    assert_eq!(tok.value, TokenValue::Text("HELLO".to_string()));
    assert_eq!(tok.span, Span { start: 1, end: 6 });
}

#[test]
fn string_literal_with_numeric_content_is_text() {
    let mut lexer = Lexer::new("\"123\"");
    let tok = lexer.next().unwrap();
    assert_eq!(tok.kind, TokenKind::StringLiteral);
    assert_eq!(tok.value, TokenValue::Text("123".to_string()));
}

#[test]
fn two_character_operators() {
    let mut lexer = Lexer::new("<= <> >= < > =");
    let kinds = [
        TokenKind::LessThanOrEqual,
        TokenKind::NotEqual,
        TokenKind::GreaterThanOrEqual,
        TokenKind::LessThan,
        TokenKind::GreaterThan,
        TokenKind::Equal,
    ];
    for k in kinds.iter() {
        let tok = lexer.next().unwrap();
        assert_eq!(tok.kind, *k);
    }
    assert_eq!(lexer.next().unwrap().kind, TokenKind::Eof);
}

#[test]
fn single_character_operators() {
    let mut lexer = Lexer::new("+-*/(),");
    let kinds = [
        TokenKind::Add,
        TokenKind::Subtract,
        TokenKind::Multiply,
        TokenKind::Divide,
        TokenKind::LeftParen,
        TokenKind::RightParen,
        TokenKind::Comma,
    ];
    for k in kinds.iter() {
        let tok = lexer.next().unwrap();
        assert_eq!(tok.kind, *k);
    }
}

#[test]
fn end_of_line_and_end_of_input_are_distinct() {
    let mut lexer = Lexer::new("A\nB");
    assert_eq!(lexer.next().unwrap().kind, TokenKind::Identifier);
    assert_eq!(lexer.next().unwrap().kind, TokenKind::Eol);
    assert_eq!(lexer.next().unwrap().kind, TokenKind::Identifier);
    assert_eq!(lexer.next().unwrap().kind, TokenKind::Eof);
    // the stream stays at end of input
    assert_eq!(lexer.next().unwrap().kind, TokenKind::Eof);
}

#[test]
fn whitespace_is_skipped() {
    let mut lexer = Lexer::new("   42");
    let tok = lexer.next().unwrap();
    assert_eq!(tok.kind, TokenKind::NumberLiteral);
    assert_eq!(tok.span, Span { start: 3, end: 5 });
}

#[test]
fn peek_does_not_consume() {
    let lexer = Lexer::new("7");
    let a = lexer.peek().unwrap();
    let b = lexer.peek().unwrap();
    assert_eq!(a, b);
    assert_eq!(a.value, TokenValue::Digit(7));
}

#[test]
fn unexpected_character_fault() {
    let mut lexer = Lexer::new("PRINT !");
    assert_eq!(lexer.next().unwrap().kind, TokenKind::Identifier);
    match lexer.next() {
        Err(SyntaxError::UnexpectedCharacter(c, pos)) => {
            assert_eq!(c, '!');
            assert_eq!(pos, 6);
        }
        other => panic!("expected an unexpected-character fault, got {:?}", other),
    }
}

#[test]
fn unterminated_string_literal_fault() {
    let mut lexer = Lexer::new("\"ABC");
    match lexer.next() {
        Err(SyntaxError::UnterminatedStringLiteral(pos)) => assert_eq!(pos, 4),
        other => panic!("expected an unterminated-string fault, got {:?}", other),
    }
}

#[test]
fn oversized_number_literal_fault() {
    let mut lexer = Lexer::new("99999999999999999999999999");
    match lexer.next() {
        Err(SyntaxError::NumberLiteralOverflow(pos)) => assert_eq!(pos, 0),
        other => panic!("expected a number-overflow fault, got {:?}", other),
    }
}

#[test]
fn offset_tracks_consumed_characters() {
    let mut lexer = Lexer::new("AB 12");
    assert_eq!(lexer.offset(), 2); // the buffered identifier is consumed
    lexer.next().unwrap();
    assert_eq!(lexer.offset(), 5); // now the number is buffered
}

#[test]
fn default_token_is_end_of_input() {
    let tok = Token::default();
    assert_eq!(tok.kind, TokenKind::Eof);
    assert_eq!(tok.span, Span { start: 0, end: 0 });
    assert_eq!(tok.value, TokenValue::Absent);
}
