//! Error types for the compilation stages, with verified message text.
//!
//! Each error type has a spec-level model (`SpecError`, `SpecParseError`)
//! and every constructor proves exactly which message, line and column the
//! error carries.

use vstd::prelude::*;

use crate::text::{char_str, dec_i64, dec_u64, dec_of_int, dec_of_nat, is_printable};
use crate::token::Span;

verus! {

/// Spec model of a simple error: message text plus source position.
pub struct SpecError {
    /// The message characters.
    pub msg: Seq<char>,
    /// Line number (1-based).
    pub line: int,
    /// Column number (1-based).
    pub col: int,
}

/// Spec model of a parse error, which may carry expected/found details.
pub struct SpecParseError {
    /// The message characters.
    pub msg: Seq<char>,
    /// Line number (1-based).
    pub line: int,
    /// Column number (1-based).
    pub col: int,
    /// What the parser expected, if recorded.
    pub expected: Option<Seq<char>>,
    /// What the parser found, if recorded.
    pub found: Option<Seq<char>>,
}

/// A quoted character for a message: ` 'c'` when printable, nothing
/// otherwise.
pub open spec fn quoted(c: char) -> Seq<char> {
    if is_printable(c) {
        seq![' ', '\''] + seq![c] + seq!['\'']
    } else {
        Seq::<char>::empty()
    }
}

/// Builds the ` 'c'` rendering of [`quoted`].
pub fn quoted_str(c: char) -> (s: String)
    ensures
        s@ == quoted(c),
{
    let v = c as u32;
    if 32 <= v && v <= 126 {
        let mut s = String::from_str(" '");
        s.append(char_str(c).as_str());
        s.append("'");
        proof {
            reveal_strlit(" '");
            reveal_strlit("'");
            assert(s@ =~= quoted(c));
        }
        s
    } else {
        let s = String::new();
        proof {
            assert(s@ =~= quoted(c));
        }
        s
    }
}

// ---------------------------------------------------------------------------
// Lexer errors
// ---------------------------------------------------------------------------

/// An error from the lexer: an unexpected character.
#[derive(Debug, Clone)]
pub struct LexerError {
    /// Human-readable message.
    pub message: String,
    /// Line number (1-based).
    pub line: usize,
    /// Column number (1-based).
    pub column: usize,
}

impl View for LexerError {
    type V = SpecError;

    open spec fn view(&self) -> SpecError {
        SpecError { msg: self.message@, line: self.line as int, col: self.column as int }
    }
}

impl LexerError {
    /// Creates a lexer error with the given message and position.
    pub fn new(message: &str, line: usize, column: usize) -> (e: LexerError)
        ensures
            e@ == (SpecError { msg: message@, line: line as int, col: column as int }),
    {
        LexerError { message: String::from_str(message), line, column }
    }
}

impl LexerError {
    /// Renders the error as
    /// `Lexer error at line L, column C: message`.
    pub fn to_display(&self) -> (s: String)
        ensures
            s@ == "Lexer error at line "@ + dec_of_nat(self.line as nat) + ", column "@
                + dec_of_nat(self.column as nat) + ": "@ + self.message@,
    {
        let mut s = String::from_str("Lexer error at line ");
        s.append(dec_u64(self.line as u64).as_str());
        s.append(", column ");
        s.append(dec_u64(self.column as u64).as_str());
        s.append(": ");
        s.append(self.message.as_str());
        proof {
            assert(s@ =~= "Lexer error at line "@ + dec_of_nat(self.line as nat) + ", column "@
                + dec_of_nat(self.column as nat) + ": "@ + self.message@);
        }
        s
    }
}

/// The message for an unexpected character.
pub open spec fn msg_unexpected_char(c: char) -> Seq<char> {
    "Unexpected character"@ + quoted(c)
}

/// Creates the unexpected-character error at the given position.
pub(crate) fn lex_unexpected_char(c: char, line: usize, column: usize) -> (e: LexerError)
    ensures
        e@ == (SpecError { msg: msg_unexpected_char(c), line: line as int, col: column as int }),
{
    let mut m = String::from_str("Unexpected character");
    m.append(quoted_str(c).as_str());
    proof {
        assert(m@ =~= msg_unexpected_char(c));
    }
    LexerError { message: m, line, column }
}

// ---------------------------------------------------------------------------
// Parse errors
// ---------------------------------------------------------------------------

/// An error from the parser.
#[derive(Debug, Clone)]
pub struct ParseError {
    /// Human-readable message.
    pub message: String,
    /// Line number (1-based).
    pub line: usize,
    /// Column number (1-based).
    pub column: usize,
    /// Description of what was expected, if recorded.
    pub expected: Option<String>,
    /// Description of what was found, if recorded.
    pub found: Option<String>,
}

/// The view of an optional string.
pub open spec fn opt_view(o: Option<String>) -> Option<Seq<char>> {
    match o {
        Option::Some(s) => Option::Some(s@),
        Option::None => Option::None,
    }
}

impl View for ParseError {
    type V = SpecParseError;

    open spec fn view(&self) -> SpecParseError {
        SpecParseError {
            msg: self.message@,
            line: self.line as int,
            col: self.column as int,
            expected: opt_view(self.expected),
            found: opt_view(self.found),
        }
    }
}

/// The spec parse error carrying only a message and a position.
pub open spec fn plain_parse_error(msg: Seq<char>, span: Span) -> SpecParseError {
    SpecParseError {
        msg: msg,
        line: span.line as int,
        col: span.column as int,
        expected: Option::None,
        found: Option::None,
    }
}

/// The spec parse error for an unexpected token.
pub open spec fn unexpected_token_error(expected: Seq<char>, found: Seq<char>, span: Span) -> SpecParseError {
    SpecParseError {
        msg: "Unexpected token"@,
        line: span.line as int,
        col: span.column as int,
        expected: Option::Some(expected),
        found: Option::Some(found),
    }
}

/// The spec parse error for an unexpected end of input.
pub open spec fn unexpected_eof_error(expected: Seq<char>, span: Span) -> SpecParseError {
    SpecParseError {
        msg: "Unexpected end of input"@,
        line: span.line as int,
        col: span.column as int,
        expected: Option::Some(expected),
        found: Option::Some("end of input"@),
    }
}

impl ParseError {
    /// Creates a parse error with the given message at the given span.
    pub fn new(message: &str, span: Span) -> (e: ParseError)
        ensures
            e@ == plain_parse_error(message@, span),
    {
        ParseError {
            message: String::from_str(message),
            line: span.line,
            column: span.column,
            expected: Option::None,
            found: Option::None,
        }
    }

    /// Creates a parse error with an owned message at the given span.
    pub(crate) fn new_owned(message: String, span: Span) -> (e: ParseError)
        ensures
            e@ == plain_parse_error(message@, span),
    {
        ParseError {
            message,
            line: span.line,
            column: span.column,
            expected: Option::None,
            found: Option::None,
        }
    }

    /// Records what the parser expected.
    pub fn with_expected(self, expected: &str) -> (e: ParseError)
        ensures
            e@ == (SpecParseError { expected: Option::Some(expected@), ..self@ }),
    {
        ParseError { expected: Option::Some(String::from_str(expected)), ..self }
    }

    /// Records what the parser found.
    pub fn with_found(self, found: &str) -> (e: ParseError)
        ensures
            e@ == (SpecParseError { found: Option::Some(found@), ..self@ }),
    {
        ParseError { found: Option::Some(String::from_str(found)), ..self }
    }

    /// Creates the unexpected-token error.
    pub fn unexpected_token(expected: &str, found: &str, span: Span) -> (e: ParseError)
        ensures
            e@ == unexpected_token_error(expected@, found@, span),
    {
        ParseError {
            message: String::from_str("Unexpected token"),
            line: span.line,
            column: span.column,
            expected: Option::Some(String::from_str(expected)),
            found: Option::Some(String::from_str(found)),
        }
    }

    /// Creates the unexpected-end-of-input error.
    pub fn unexpected_eof(expected: &str, span: Span) -> (e: ParseError)
        ensures
            e@ == unexpected_eof_error(expected@, span),
    {
        ParseError {
            message: String::from_str("Unexpected end of input"),
            line: span.line,
            column: span.column,
            expected: Option::Some(String::from_str(expected)),
            found: Option::Some(String::from_str("end of input")),
        }
    }
}

// ---------------------------------------------------------------------------
// Expansion errors
// ---------------------------------------------------------------------------

/// An error from macro/function expansion.
#[derive(Debug, Clone)]
pub struct ExpandError {
    /// Human-readable message.
    pub message: String,
    /// Line number (1-based).
    pub line: usize,
    /// Column number (1-based).
    pub column: usize,
}

impl View for ExpandError {
    type V = SpecError;

    open spec fn view(&self) -> SpecError {
        SpecError { msg: self.message@, line: self.line as int, col: self.column as int }
    }
}

/// The spec error with the given message at the given span.
pub open spec fn expand_error_at(msg: Seq<char>, span: Span) -> SpecError {
    SpecError { msg: msg, line: span.line as int, col: span.column as int }
}

/// The message for an undefined macro reference.
pub open spec fn msg_undefined_macro(name: char) -> Seq<char> {
    "Undefined macro"@ + quoted(name)
}

/// The message for an undefined function reference.
pub open spec fn msg_undefined_function(name: char) -> Seq<char> {
    "Undefined function"@ + quoted(name)
}

/// The message for exceeding the recursion depth limit.
pub open spec fn msg_max_recursion_depth() -> Seq<char> {
    "Maximum recursion depth exceeded"@
}

/// The message for exceeding the step limit under the abort policy.
pub open spec fn msg_max_step_exceeded(limit: nat) -> Seq<char> {
    "[E004] MAX_STEP limit ("@ + dec_of_nat(limit) + ") exceeded"@
}

/// The message for a numeric value outside `-255..=255`.
pub open spec fn msg_numeric_out_of_range(n: int) -> Seq<char> {
    "[E007] Numeric value "@ + dec_of_int(n) + " out of range (-255..255)"@
}

/// The message for an integer-bound parameter used as a command sequence.
pub open spec fn msg_int_used_as_term(name: char) -> Seq<char> {
    "[E008] Parameter"@ + quoted(name) + " is Int type but used as command sequence"@
}

/// The message for a command-sequence-bound parameter used in a numeric
/// expression.
pub open spec fn msg_cmdseq_used_in_numexpr(name: char) -> Seq<char> {
    "[E008] Parameter"@ + quoted(name) + " is CmdSeq type but used in numeric expression"@
}

/// The message for a reference to a parameter with no binding.
pub open spec fn msg_undefined_parameter(name: char) -> Seq<char> {
    "Undefined parameter"@ + quoted(name)
}

/// The message for a call whose argument count differs from the
/// function's parameter count.
pub open spec fn msg_argument_count_mismatch(name: char, expected: nat, found: nat) -> Seq<char> {
    "[E003] Argument count mismatch for function"@ + quoted(name) + ": expected "@ + dec_of_nat(expected)
        + ", found "@ + dec_of_nat(found)
}

impl ExpandError {
    /// Creates an expansion error with the given message at the given span.
    pub fn new(message: &str, span: Span) -> (e: ExpandError)
        ensures
            e@ == expand_error_at(message@, span),
    {
        ExpandError { message: String::from_str(message), line: span.line, column: span.column }
    }

    /// Creates the undefined-macro error.
    pub fn undefined_macro(name: char, span: Span) -> (e: ExpandError)
        ensures
            e@ == expand_error_at(msg_undefined_macro(name), span),
    {
        let mut m = String::from_str("Undefined macro");
        m.append(quoted_str(name).as_str());
        proof {
            assert(m@ =~= msg_undefined_macro(name));
        }
        ExpandError { message: m, line: span.line, column: span.column }
    }

    /// Creates the undefined-function error.
    pub fn undefined_function(name: char, span: Span) -> (e: ExpandError)
        ensures
            e@ == expand_error_at(msg_undefined_function(name), span),
    {
        let mut m = String::from_str("Undefined function");
        m.append(quoted_str(name).as_str());
        proof {
            assert(m@ =~= msg_undefined_function(name));
        }
        ExpandError { message: m, line: span.line, column: span.column }
    }

    /// Creates the recursion-depth error.
    pub fn max_recursion_depth(span: Span) -> (e: ExpandError)
        ensures
            e@ == expand_error_at(msg_max_recursion_depth(), span),
    {
        ExpandError {
            message: String::from_str("Maximum recursion depth exceeded"),
            line: span.line,
            column: span.column,
        }
    }

    /// Creates the step-limit error (`on_limit = ERROR`).
    pub fn max_step_exceeded(limit: usize, span: Span) -> (e: ExpandError)
        ensures
            e@ == expand_error_at(msg_max_step_exceeded(limit as nat), span),
    {
        let mut m = String::from_str("[E004] MAX_STEP limit (");
        m.append(dec_u64(limit as u64).as_str());
        m.append(") exceeded");
        proof {
            assert(m@ =~= msg_max_step_exceeded(limit as nat));
        }
        ExpandError { message: m, line: span.line, column: span.column }
    }

    /// Creates the numeric-range error.
    pub fn numeric_out_of_range(n: i32, span: Span) -> (e: ExpandError)
        ensures
            e@ == expand_error_at(msg_numeric_out_of_range(n as int), span),
    {
        let mut m = String::from_str("[E007] Numeric value ");
        m.append(dec_i64(n as i64).as_str());
        m.append(" out of range (-255..255)");
        proof {
            assert(m@ =~= msg_numeric_out_of_range(n as int));
        }
        ExpandError { message: m, line: span.line, column: span.column }
    }

    /// Creates the numeric-range error for a folded intermediate value.
    pub fn numeric_out_of_range_wide(n: i64, span: Span) -> (e: ExpandError)
        ensures
            e@ == expand_error_at(msg_numeric_out_of_range(n as int), span),
    {
        let mut m = String::from_str("[E007] Numeric value ");
        m.append(dec_i64(n).as_str());
        m.append(" out of range (-255..255)");
        proof {
            assert(m@ =~= msg_numeric_out_of_range(n as int));
        }
        ExpandError { message: m, line: span.line, column: span.column }
    }

    /// Creates the type error for an integer parameter used as a term.
    pub fn int_used_as_term(name: char, span: Span) -> (e: ExpandError)
        ensures
            e@ == expand_error_at(msg_int_used_as_term(name), span),
    {
        let mut m = String::from_str("[E008] Parameter");
        m.append(quoted_str(name).as_str());
        m.append(" is Int type but used as command sequence");
        proof {
            assert(m@ =~= msg_int_used_as_term(name));
        }
        ExpandError { message: m, line: span.line, column: span.column }
    }

    /// Creates the type error for a command-sequence parameter used in a
    /// numeric expression.
    pub fn cmdseq_used_in_numexpr(name: char, span: Span) -> (e: ExpandError)
        ensures
            e@ == expand_error_at(msg_cmdseq_used_in_numexpr(name), span),
    {
        let mut m = String::from_str("[E008] Parameter");
        m.append(quoted_str(name).as_str());
        m.append(" is CmdSeq type but used in numeric expression");
        proof {
            assert(m@ =~= msg_cmdseq_used_in_numexpr(name));
        }
        ExpandError { message: m, line: span.line, column: span.column }
    }

    /// Creates the undefined-parameter error.
    pub fn undefined_parameter(name: char, span: Span) -> (e: ExpandError)
        ensures
            e@ == expand_error_at(msg_undefined_parameter(name), span),
    {
        let mut m = String::from_str("Undefined parameter");
        m.append(quoted_str(name).as_str());
        proof {
            assert(m@ =~= msg_undefined_parameter(name));
        }
        ExpandError { message: m, line: span.line, column: span.column }
    }

    /// Creates the argument-count error.
    pub fn argument_count_mismatch(name: char, expected: usize, found: usize, span: Span) -> (e:
        ExpandError)
        ensures
            e@ == expand_error_at(
                msg_argument_count_mismatch(name, expected as nat, found as nat),
                span,
            ),
    {
        let mut m = String::from_str("[E003] Argument count mismatch for function");
        m.append(quoted_str(name).as_str());
        m.append(": expected ");
        m.append(dec_u64(expected as u64).as_str());
        m.append(", found ");
        m.append(dec_u64(found as u64).as_str());
        proof {
            assert(m@ =~= msg_argument_count_mismatch(name, expected as nat, found as nat));
        }
        ExpandError { message: m, line: span.line, column: span.column }
    }
}

// ---------------------------------------------------------------------------
// Compile errors (the outward-facing triple)
// ---------------------------------------------------------------------------

/// A compile error: the `(line, column, message)` triple reported to the
/// caller of the whole pipeline.
#[derive(Debug, Clone)]
pub struct CompileError {
    /// Line number (1-based).
    pub line: usize,
    /// Column number (1-based).
    pub column: usize,
    /// Human-readable message.
    pub message: String,
}

impl View for CompileError {
    type V = SpecError;

    open spec fn view(&self) -> SpecError {
        SpecError { msg: self.message@, line: self.line as int, col: self.column as int }
    }
}

/// How a parse error's message, expected part and found part combine into
/// one compile-error message.
pub open spec fn parse_error_message(e: SpecParseError) -> Seq<char> {
    let with_expected = match e.expected {
        Option::Some(x) => e.msg + " (expected: "@ + x + ")"@,
        Option::None => e.msg,
    };
    match e.found {
        Option::Some(f) => with_expected + " (found: "@ + f + ")"@,
        Option::None => with_expected,
    }
}

impl CompileError {
    /// Converts a lexer error, keeping message and position.
    pub fn from_lexer_error(e: LexerError) -> (r: CompileError)
        ensures
            r@ == e@,
    {
        CompileError { line: e.line, column: e.column, message: e.message }
    }

    /// Converts a parse error, folding the expected/found details into the
    /// message.
    pub fn from_parse_error(e: ParseError) -> (r: CompileError)
        ensures
            r@ == (SpecError {
                msg: parse_error_message(e@),
                line: e@.line,
                col: e@.col,
            }),
    {
        let mut m = e.message;
        match &e.expected {
            Option::Some(x) => {
                m.append(" (expected: ");
                m.append(x.as_str());
                m.append(")");
            },
            Option::None => {},
        }
        match &e.found {
            Option::Some(f) => {
                m.append(" (found: ");
                m.append(f.as_str());
                m.append(")");
            },
            Option::None => {},
        }
        proof {
            assert(m@ =~= parse_error_message(e@));
        }
        CompileError { line: e.line, column: e.column, message: m }
    }

    /// Converts an expansion error, keeping message and position.
    pub fn from_expand_error(e: ExpandError) -> (r: CompileError)
        ensures
            r@ == e@,
    {
        CompileError { line: e.line, column: e.column, message: e.message }
    }
}

} // verus!
