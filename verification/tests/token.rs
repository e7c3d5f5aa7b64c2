//! Tests for tokens: spans, kinds, descriptions and display text.

use h2lang::token::{Span, Token, TokenKind};

#[test]
fn test_span_creation() {
    let span = Span::new(0, 5, 1, 1);
    assert_eq!(span.start, 0);
    assert_eq!(span.end, 5);
    assert_eq!(span.line, 1);
    assert_eq!(span.column, 1);
}

#[test]
fn test_span_display() {
    let span = Span::new(0, 5, 3, 7);
    assert_eq!(span.to_display(), "3:7");
}

#[test]
fn test_token_kind_description() {
    assert_eq!(TokenKind::Straight.description(), "'s'");
    assert_eq!(TokenKind::Right.description(), "'r'");
    assert_eq!(TokenKind::Left.description(), "'l'");
    assert_eq!(TokenKind::AgentId(0).description(), "agent ID");
    assert_eq!(TokenKind::Number(42).description(), "number");
}

#[test]
fn test_token_kind_is_command() {
    assert!(TokenKind::Straight.is_command());
    assert!(TokenKind::Right.is_command());
    assert!(TokenKind::Left.is_command());
    assert!(!TokenKind::Ident('f').is_command());
    assert!(!TokenKind::Number(1).is_command());
}

#[test]
fn test_token_kind_is_whitespace() {
    assert!(TokenKind::Space.is_whitespace());
    assert!(TokenKind::Newline.is_whitespace());
    assert!(!TokenKind::Straight.is_whitespace());
    assert!(!TokenKind::Eof.is_whitespace());
}

#[test]
fn test_token_kind_display() {
    assert_eq!(TokenKind::Straight.to_display(), "s");
    assert_eq!(TokenKind::AgentId(5).to_display(), "5");
    assert_eq!(TokenKind::Ident('f').to_display(), "f");
}

#[test]
fn test_token_creation() {
    let token = Token::new(TokenKind::Straight, Span::new(0, 1, 1, 1));
    assert_eq!(token.kind, TokenKind::Straight);
    assert_eq!(token.span.start, 0);
}

#[test]
fn test_token_display() {
    let token = Token::new(TokenKind::Right, Span::new(5, 6, 2, 3));
    assert_eq!(token.to_display(), "r at 2:3");
}
