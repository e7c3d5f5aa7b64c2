//! Tests for the lexer: token streams, spans, comments, and position
//! tracking around a lone slash.

use h2lang::lexer::Lexer;
use h2lang::token::TokenKind;

#[test]
fn test_basic_commands() {
    let mut lexer = Lexer::new("srl");
    assert_eq!(lexer.next_token().unwrap().kind, TokenKind::Straight);
    assert_eq!(lexer.next_token().unwrap().kind, TokenKind::Right);
    assert_eq!(lexer.next_token().unwrap().kind, TokenKind::Left);
    assert_eq!(lexer.next_token().unwrap().kind, TokenKind::Eof);
}

#[test]
fn test_agent_line() {
    let mut lexer = Lexer::new("0: srl");
    assert_eq!(lexer.next_token().unwrap().kind, TokenKind::AgentId(0));
    assert_eq!(lexer.next_token().unwrap().kind, TokenKind::Colon);
    assert_eq!(lexer.next_token().unwrap().kind, TokenKind::Space);
    assert_eq!(lexer.next_token().unwrap().kind, TokenKind::Straight);
    assert_eq!(lexer.next_token().unwrap().kind, TokenKind::Right);
    assert_eq!(lexer.next_token().unwrap().kind, TokenKind::Left);
}

#[test]
fn test_multi_digit_agent_id() {
    let mut lexer = Lexer::new("12: s");
    assert_eq!(lexer.next_token().unwrap().kind, TokenKind::AgentId(12));
}

#[test]
fn test_identifier() {
    let mut lexer = Lexer::new("x:ss");
    assert_eq!(lexer.next_token().unwrap().kind, TokenKind::Ident('x'));
    assert_eq!(lexer.next_token().unwrap().kind, TokenKind::Colon);
    assert_eq!(lexer.next_token().unwrap().kind, TokenKind::Straight);
    assert_eq!(lexer.next_token().unwrap().kind, TokenKind::Straight);
}

#[test]
fn lexer_test_function_definition() {
    let mut lexer = Lexer::new("f(X):XXX");
    assert_eq!(lexer.next_token().unwrap().kind, TokenKind::Ident('f'));
    assert_eq!(lexer.next_token().unwrap().kind, TokenKind::LParen);
    assert_eq!(lexer.next_token().unwrap().kind, TokenKind::Param('X'));
    assert_eq!(lexer.next_token().unwrap().kind, TokenKind::RParen);
    assert_eq!(lexer.next_token().unwrap().kind, TokenKind::Colon);
    assert_eq!(lexer.next_token().unwrap().kind, TokenKind::Param('X'));
    assert_eq!(lexer.next_token().unwrap().kind, TokenKind::Param('X'));
    assert_eq!(lexer.next_token().unwrap().kind, TokenKind::Param('X'));
}

#[test]
fn test_newline() {
    let mut lexer = Lexer::new("s\nr");
    assert_eq!(lexer.next_token().unwrap().kind, TokenKind::Straight);
    assert_eq!(lexer.next_token().unwrap().kind, TokenKind::Newline);
    assert_eq!(lexer.next_token().unwrap().kind, TokenKind::Right);
}

#[test]
fn test_comment() {
    let mut lexer = Lexer::new("s # comment\nr");
    assert_eq!(lexer.next_token().unwrap().kind, TokenKind::Straight);
    assert_eq!(lexer.next_token().unwrap().kind, TokenKind::Space);
    assert_eq!(lexer.next_token().unwrap().kind, TokenKind::Newline);
    assert_eq!(lexer.next_token().unwrap().kind, TokenKind::Right);
}

#[test]
fn test_span_tracking() {
    let mut lexer = Lexer::new("0: s");
    let token = lexer.next_token().unwrap();
    assert_eq!(token.span.line, 1);
    assert_eq!(token.span.column, 1);
}

#[test]
fn test_number_in_function_call() {
    // a(4): a number literal inside a function call
    let mut lexer = Lexer::new("0: a(4)");
    assert_eq!(lexer.next_token().unwrap().kind, TokenKind::AgentId(0));
    assert_eq!(lexer.next_token().unwrap().kind, TokenKind::Colon);
    assert_eq!(lexer.next_token().unwrap().kind, TokenKind::Space);
    assert_eq!(lexer.next_token().unwrap().kind, TokenKind::Ident('a'));
    assert_eq!(lexer.next_token().unwrap().kind, TokenKind::LParen);
    assert_eq!(lexer.next_token().unwrap().kind, TokenKind::Number(4));
    assert_eq!(lexer.next_token().unwrap().kind, TokenKind::RParen);
}

#[test]
fn test_comma_and_operators() {
    let mut lexer = Lexer::new("a(X,Y)");
    assert_eq!(lexer.next_token().unwrap().kind, TokenKind::Ident('a'));
    assert_eq!(lexer.next_token().unwrap().kind, TokenKind::LParen);
    assert_eq!(lexer.next_token().unwrap().kind, TokenKind::Param('X'));
    assert_eq!(lexer.next_token().unwrap().kind, TokenKind::Comma);
    assert_eq!(lexer.next_token().unwrap().kind, TokenKind::Param('Y'));
    assert_eq!(lexer.next_token().unwrap().kind, TokenKind::RParen);

    let mut lexer = Lexer::new("a(X-1)");
    assert_eq!(lexer.next_token().unwrap().kind, TokenKind::Ident('a'));
    assert_eq!(lexer.next_token().unwrap().kind, TokenKind::LParen);
    assert_eq!(lexer.next_token().unwrap().kind, TokenKind::Param('X'));
    assert_eq!(lexer.next_token().unwrap().kind, TokenKind::Minus);
    assert_eq!(lexer.next_token().unwrap().kind, TokenKind::Number(1));
    assert_eq!(lexer.next_token().unwrap().kind, TokenKind::RParen);
}

#[test]
fn test_single_slash_position_tracking() {
    // A single '/' (no comment) must error at its own position.
    let mut lexer = Lexer::new("/s");
    let result = lexer.next_token();
    assert!(result.is_err());
    if let Err(e) = result {
        assert_eq!(e.line, 1);
        assert_eq!(e.column, 1);
    }
}

#[test]
fn test_single_slash_span_after_restore() {
    // Position tracking must survive a false comment start mid-line.
    let mut lexer = Lexer::new("s/r");

    let t1 = lexer.next_token().unwrap();
    assert_eq!(t1.kind, TokenKind::Straight);
    assert_eq!(t1.span.start, 0);
    assert_eq!(t1.span.end, 1);

    let err = lexer.next_token().unwrap_err();
    assert_eq!(err.column, 2, "Error column should be 2");
    assert_eq!(err.line, 1);
}

#[test]
fn test_position_after_single_slash_in_middle() {
    let mut lexer = Lexer::new("ss/r");

    let t1 = lexer.next_token().unwrap();
    assert_eq!(t1.kind, TokenKind::Straight);
    assert_eq!(t1.span.start, 0);
    assert_eq!(t1.span.end, 1);

    let t2 = lexer.next_token().unwrap();
    assert_eq!(t2.kind, TokenKind::Straight);
    assert_eq!(t2.span.start, 1);
    assert_eq!(t2.span.end, 2);

    let err = lexer.next_token().unwrap_err();
    assert_eq!(
        err.column, 3,
        "Error column should be 3 for '/' at position 2"
    );
}

#[test]
fn test_span_corruption_after_slash_restore() {
    let mut lexer = Lexer::new("sss/sss");

    for i in 0..3 {
        let t = lexer.next_token().unwrap();
        assert_eq!(t.kind, TokenKind::Straight);
        assert_eq!(t.span.start, i, "Token {} should start at {}", i, i);
        assert_eq!(t.span.end, i + 1, "Token {} should end at {}", i, i + 1);
    }

    let _ = lexer.next_token(); // the '/' errors
}

#[test]
fn test_single_slash_followed_by_valid_code() {
    let input = "s/r";
    let mut lexer = Lexer::new(input);

    let token = lexer.next_token().unwrap();
    assert_eq!(token.kind, TokenKind::Straight);
    assert_eq!(token.span.start, 0);
    assert_eq!(token.span.end, 1);

    let result = lexer.next_token();
    assert!(result.is_err());
}

#[test]
fn lexer_test_double_slash_comment() {
    let mut lexer = Lexer::new("s // comment\nr");
    assert_eq!(lexer.next_token().unwrap().kind, TokenKind::Straight);
    assert_eq!(lexer.next_token().unwrap().kind, TokenKind::Space);
    assert_eq!(lexer.next_token().unwrap().kind, TokenKind::Newline);

    let token = lexer.next_token().unwrap();
    assert_eq!(token.kind, TokenKind::Right);
    assert_eq!(token.span.line, 2);
}

#[test]
fn test_span_end_position() {
    let mut lexer = Lexer::new("srl");
    let token = lexer.next_token().unwrap();
    assert_eq!(token.kind, TokenKind::Straight);
    assert_eq!(token.span.start, 0);
    assert_eq!(token.span.end, 1);

    let token = lexer.next_token().unwrap();
    assert_eq!(token.kind, TokenKind::Right);
    assert_eq!(token.span.start, 1);
    assert_eq!(token.span.end, 2);

    let token = lexer.next_token().unwrap();
    assert_eq!(token.kind, TokenKind::Left);
    assert_eq!(token.span.start, 2);
    assert_eq!(token.span.end, 3);
}
