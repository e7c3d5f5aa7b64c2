//! Tests for the error types: display text and conversions.

use h2lang::error::{CompileError, LexerError, ParseError};
use h2lang::token::Span;

#[test]
fn test_lexer_error_display() {
    let err = LexerError::new("Unexpected character", 1, 5);
    assert!(err.to_display().contains("line 1"));
    assert!(err.to_display().contains("column 5"));
}

#[test]
fn test_parse_error_conversion() {
    let span = Span::new(0, 1, 2, 3);
    let err = ParseError::unexpected_token("'s'", "'x'", span);
    let compile_err: CompileError = CompileError::from_parse_error(err);
    assert_eq!(compile_err.line, 2);
    assert_eq!(compile_err.column, 3);
}
