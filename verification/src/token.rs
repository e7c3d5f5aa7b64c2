//! Token definitions for the lexer: source spans and token kinds.

use vstd::prelude::*;

use crate::text::{char_str, dec_i64, dec_of_int, dec_of_nat, dec_u64, is_printable};

verus! {

/// Position information for a token in the source code.
///
/// `start` and `end` are byte offsets into the source (`end` exclusive);
/// `line` and `column` are 1-based and count characters.
#[derive(Debug, Clone, Copy, PartialEq, Eq, Structural)]
pub struct Span {
    /// Start position (byte offset from beginning of source).
    pub start: usize,
    /// End position (byte offset, exclusive).
    pub end: usize,
    /// Line number (1-based).
    pub line: usize,
    /// Column number (1-based).
    pub column: usize,
}

impl Span {
    /// Creates a new span with the given positions.
    pub fn new(start: usize, end: usize, line: usize, column: usize) -> (r: Span)
        ensures
            r == (Span { start, end, line, column }),
    {
        Span { start, end, line, column }
    }
}

impl Span {
    /// Renders the span's position as `line:column`.
    pub fn to_display(&self) -> (s: String)
        ensures
            s@ == dec_of_nat(self.line as nat) + ":"@ + dec_of_nat(self.column as nat),
    {
        let mut s = dec_u64(self.line as u64);
        s.append(":");
        s.append(dec_u64(self.column as u64).as_str());
        proof {
            assert(s@ =~= dec_of_nat(self.line as nat) + ":"@ + dec_of_nat(self.column as nat));
        }
        s
    }
}

impl Default for Span {
    /// The span used where no source position is available: all fields zero.
    fn default() -> (r: Span)
        ensures
            r == (Span { start: 0, end: 0, line: 0, column: 0 }),
    {
        Span { start: 0, end: 0, line: 0, column: 0 }
    }
}

/// The name of a limit directive, recognised while lexing a line that
/// starts with an upper-case word.
#[derive(Debug, Clone, Copy, PartialEq, Eq, Structural)]
pub enum DirectiveName {
    /// `MAX_STEP`: ceiling on generated primitive commands.
    MaxStep,
    /// `MAX_DEPTH`: ceiling on expansion recursion depth.
    MaxDepth,
    /// `MAX_MEMORY`: reserved memory ceiling.
    MaxMemory,
    /// `ON_LIMIT`: behaviour when the step limit is exceeded.
    OnLimit,
    /// Any other upper-case word in directive position.
    Unknown,
}

/// The word after `=` in a directive line.
#[derive(Debug, Clone, Copy, PartialEq, Eq, Structural)]
pub enum LimitWord {
    /// `ERROR`: abort compilation when the step limit is exceeded.
    Error,
    /// `TRUNCATE`: stop emitting commands and return the partial result.
    Truncate,
    /// Any other upper-case word after `=`.
    Other,
}

/// Token kinds produced by the lexer.
#[derive(Debug, Clone, Copy, PartialEq, Eq, Structural)]
pub enum TokenKind {
    /// Agent ID: a numeral at the start of a line (e.g. `0`, `12`).
    AgentId(u32),
    /// Lowercase identifier (`a`-`z` except `s`, `r`, `l`): macro or function name.
    Ident(char),
    /// Uppercase parameter letter (`A`-`Z`).
    Param(char),
    /// `s`: move straight.
    Straight,
    /// `r`: rotate right.
    Right,
    /// `l`: rotate left.
    Left,
    /// Number literal (a numeral not at the start of a line).
    Number(i32),
    /// `:`
    Colon,
    /// `(`
    LParen,
    /// `)`
    RParen,
    /// `,`
    Comma,
    /// `+`
    Plus,
    /// `-`
    Minus,
    /// `=` (directive lines).
    Equals,
    /// A directive name at the start of a line (e.g. `MAX_STEP`).
    Directive(DirectiveName),
    /// An upper-case word inside a directive line (e.g. `TRUNCATE`).
    DirectiveValue(LimitWord),
    /// One or more spaces or tabs.
    Space,
    /// `\n` or `\r\n` or `\r`.
    Newline,
    /// End of input.
    Eof,
}

/// The description text of each token kind (the spec of
/// [`TokenKind::description`]).
pub open spec fn desc_of(k: TokenKind) -> Seq<char> {
    match k {
        TokenKind::AgentId(_) => "agent ID"@,
        TokenKind::Ident(_) => "identifier"@,
        TokenKind::Param(_) => "parameter"@,
        TokenKind::Straight => "'s'"@,
        TokenKind::Right => "'r'"@,
        TokenKind::Left => "'l'"@,
        TokenKind::Number(_) => "number"@,
        TokenKind::Colon => "':'"@,
        TokenKind::LParen => "'('"@,
        TokenKind::RParen => "')'"@,
        TokenKind::Comma => "','"@,
        TokenKind::Plus => "'+'"@,
        TokenKind::Minus => "'-'"@,
        TokenKind::Equals => "'='"@,
        TokenKind::Directive(_) => "directive"@,
        TokenKind::DirectiveValue(_) => "directive value"@,
        TokenKind::Space => "space"@,
        TokenKind::Newline => "newline"@,
        TokenKind::Eof => "end of input"@,
    }
}

/// The display text of each token kind: the characters the token stands
/// for (an unprintable letter renders as nothing).
pub open spec fn display_of(k: TokenKind) -> Seq<char> {
    match k {
        TokenKind::AgentId(n) => dec_of_nat(n as nat),
        TokenKind::Ident(c) => if is_printable(c) {
            seq![c]
        } else {
            Seq::<char>::empty()
        },
        TokenKind::Param(c) => if is_printable(c) {
            seq![c]
        } else {
            Seq::<char>::empty()
        },
        TokenKind::Straight => "s"@,
        TokenKind::Right => "r"@,
        TokenKind::Left => "l"@,
        TokenKind::Number(n) => dec_of_int(n as int),
        TokenKind::Colon => ":"@,
        TokenKind::LParen => "("@,
        TokenKind::RParen => ")"@,
        TokenKind::Comma => ","@,
        TokenKind::Plus => "+"@,
        TokenKind::Minus => "-"@,
        TokenKind::Equals => "="@,
        TokenKind::Directive(d) => match d {
            DirectiveName::MaxStep => "MAX_STEP"@,
            DirectiveName::MaxDepth => "MAX_DEPTH"@,
            DirectiveName::MaxMemory => "MAX_MEMORY"@,
            DirectiveName::OnLimit => "ON_LIMIT"@,
            DirectiveName::Unknown => "?"@,
        },
        TokenKind::DirectiveValue(w) => match w {
            LimitWord::Error => "ERROR"@,
            LimitWord::Truncate => "TRUNCATE"@,
            LimitWord::Other => "?"@,
        },
        TokenKind::Space => " "@,
        TokenKind::Newline => "\\n"@,
        TokenKind::Eof => "EOF"@,
    }
}

impl TokenKind {
    /// Renders the token kind as the text it stands for.
    pub fn to_display(&self) -> (s: String)
        ensures
            s@ == display_of(*self),
    {
        match self {
            TokenKind::AgentId(n) => dec_u64(*n as u64),
            TokenKind::Ident(c) => char_str(*c),
            TokenKind::Param(c) => char_str(*c),
            TokenKind::Straight => String::from_str("s"),
            TokenKind::Right => String::from_str("r"),
            TokenKind::Left => String::from_str("l"),
            TokenKind::Number(n) => dec_i64(*n as i64),
            TokenKind::Colon => String::from_str(":"),
            TokenKind::LParen => String::from_str("("),
            TokenKind::RParen => String::from_str(")"),
            TokenKind::Comma => String::from_str(","),
            TokenKind::Plus => String::from_str("+"),
            TokenKind::Minus => String::from_str("-"),
            TokenKind::Equals => String::from_str("="),
            TokenKind::Directive(d) => match d {
                DirectiveName::MaxStep => String::from_str("MAX_STEP"),
                DirectiveName::MaxDepth => String::from_str("MAX_DEPTH"),
                DirectiveName::MaxMemory => String::from_str("MAX_MEMORY"),
                DirectiveName::OnLimit => String::from_str("ON_LIMIT"),
                DirectiveName::Unknown => String::from_str("?"),
            },
            TokenKind::DirectiveValue(w) => match w {
                LimitWord::Error => String::from_str("ERROR"),
                LimitWord::Truncate => String::from_str("TRUNCATE"),
                LimitWord::Other => String::from_str("?"),
            },
            TokenKind::Space => String::from_str(" "),
            TokenKind::Newline => String::from_str("\\n"),
            TokenKind::Eof => String::from_str("EOF"),
        }
    }

    /// A human-readable description of the token kind, for error messages.
    pub fn description(&self) -> (r: &'static str)
        ensures
            r@ == desc_of(*self),
    {
        match self {
            TokenKind::AgentId(_) => "agent ID",
            TokenKind::Ident(_) => "identifier",
            TokenKind::Param(_) => "parameter",
            TokenKind::Straight => "'s'",
            TokenKind::Right => "'r'",
            TokenKind::Left => "'l'",
            TokenKind::Number(_) => "number",
            TokenKind::Colon => "':'",
            TokenKind::LParen => "'('",
            TokenKind::RParen => "')'",
            TokenKind::Comma => "','",
            TokenKind::Plus => "'+'",
            TokenKind::Minus => "'-'",
            TokenKind::Equals => "'='",
            TokenKind::Directive(_) => "directive",
            TokenKind::DirectiveValue(_) => "directive value",
            TokenKind::Space => "space",
            TokenKind::Newline => "newline",
            TokenKind::Eof => "end of input",
        }
    }

    /// Whether this token is one of the three primitive commands.
    pub fn is_command(&self) -> (r: bool)
        ensures
            r == (self is Straight || self is Right || self is Left),
    {
        matches!(self, TokenKind::Straight | TokenKind::Right | TokenKind::Left)
    }

    /// Whether this token is whitespace (space run or newline).
    pub fn is_whitespace(&self) -> (r: bool)
        ensures
            r == (self is Space || self is Newline),
    {
        matches!(self, TokenKind::Space | TokenKind::Newline)
    }
}

/// A token: its kind together with its position in the source.
#[derive(Debug, Clone, Copy, PartialEq, Eq, Structural)]
pub struct Token {
    /// The kind of this token.
    pub kind: TokenKind,
    /// Position information in the source code.
    pub span: Span,
}

impl Token {
    /// Renders the token as `text at line:column`.
    pub fn to_display(&self) -> (s: String)
        ensures
            s@ == display_of(self.kind) + " at "@ + dec_of_nat(self.span.line as nat) + ":"@
                + dec_of_nat(self.span.column as nat),
    {
        let mut s = self.kind.to_display();
        s.append(" at ");
        s.append(self.span.to_display().as_str());
        proof {
            assert(s@ =~= display_of(self.kind) + " at "@ + dec_of_nat(self.span.line as nat)
                + ":"@ + dec_of_nat(self.span.column as nat));
        }
        s
    }

    /// Creates a new token with the given kind and span.
    pub fn new(kind: TokenKind, span: Span) -> (r: Token)
        ensures
            r == (Token { kind, span }),
    {
        Token { kind, span }
    }
}

} // verus!
